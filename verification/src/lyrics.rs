//! The demonstration song: every line is a function of its own, assembled by
//! `call_me_maybe`, together with its substitute lines and the
//! whitespace-normalising `beautify` used to compare renditions.

use vstd::prelude::*;
use vstd::string::StringExecFns;
use crate::chars::{push_char, split_ch, split_chars, str_chars, to_text, trim_copy, trim_spec};
use crate::pre_chorus;

verus! {

pub fn i_threw_a_wish_in(the_well: String) -> (r: String)
    ensures
        r@ == "I threw a wish in "@ + the_well@,
{
    let mut r = "I threw a wish in ".to_owned();
    r.append(the_well.as_str());
    r
}

pub fn dont_ask_me_i_ll(never: &str, tell: &str) -> (r: String)
    ensures
        r@ == "Don't ask me I'll "@ + never@ + " "@ + tell@,
{
    let mut r = "Don't ask me I'll ".to_owned();
    r.append(never);
    r.append(" ");
    r.append(tell);
    r
}

pub fn i_looked_at_you_as(it_fell: &mut String) -> (r: String)
    ensures
        final(it_fell)@ == old(it_fell)@,
        r@ == "I looked at you as "@ + old(it_fell)@,
{
    let mut r = "I looked at you as ".to_owned();
    r.append(it_fell.as_str());
    r
}

pub fn and_now_youre_in_my_way() -> (r: (String, String))
    ensures
        r.0@ == "And now you're"@,
        r.1@ == "in my way"@,
{
    ("And now you're".to_owned(), "in my way".to_owned())
}

pub fn id_trade_my_soul_for_a_wish() -> (r: String)
    ensures
        r@ == "I'd trade my soul for a wish"@,
{
    "I'd trade my soul for a wish".to_owned()
}

pub fn pennies_and_dimes_for_a_kiss() -> (r: String)
    ensures
        r@ == "Pennies and dimes for a kiss"@,
{
    "Pennies and dimes for a kiss".to_owned()
}

pub fn i_wasnt_looking_for_this() -> (r: String)
    ensures
        r@ == "I wasn't looking for this"@,
{
    "I wasn't looking for this".to_owned()
}

pub fn but_now_youre_in_my_way() -> (r: String)
    ensures
        r@ == "But now you're in my way"@,
{
    "But now you're in my way".to_owned()
}

pub struct Chorus {}

impl Chorus {
    pub fn hey_i_just_met_you_and_this_is_crazy() -> (r: String)
        ensures
            r@ == "Hey, I just met you and this is crazy"@,
    {
        "Hey, I just met you and this is crazy".to_owned()
    }

    pub fn but_heres_my_number_so_call_me_maybe(self) -> (r: String)
        ensures
            r@ == "But here's my number, so call me maybe"@,
    {
        "But here's my number, so call me maybe".to_owned()
    }

    pub fn its_hard_to_look_right_at_you_baby(&self) -> (r: String)
        ensures
            r@ == "It's hard to look right at you baby"@,
    {
        "It's hard to look right at you baby".to_owned()
    }

    pub fn but_here_is_my_number_so_call_me_maybe(&mut self) -> (r: String)
        ensures
            *final(self) == *old(self),
            r@ == "But here's my number, so call me maybe"@,
    {
        "But here's my number, so call me maybe".to_owned()
    }

    pub fn struct_macros_trait_and_thats_all() -> (r: String)
        ensures
            r@ == "Struct, macros, trait and that's all"@,
    {
        "Struct, macros, trait and that's all".to_owned()
    }

    pub fn your_test_environment_is_independent(self) -> (r: String)
        ensures
            r@ == "Your test environment is independent"@,
    {
        "Your test environment is independent".to_owned()
    }

    pub fn test_your_code_do_it_safely() -> (r: String)
        ensures
            r@ == "Test your code, do it safely"@,
    {
        "Test your code, do it safely".to_owned()
    }
}

pub fn applause() -> (r: String)
    ensures
        r@ == "Encore!"@,
{
    "Encore!".to_owned()
}

pub fn i_searched_for_lib_in_the_web(web: String) -> (r: String)
    ensures
        r@ == "I searched for lib in "@ + web@,
{
    let mut r = "I searched for lib in ".to_owned();
    r.append(web.as_str());
    r
}

pub fn to_test_code_dry_avoid_wet(dry: &str, wet: &str) -> (r: String)
    ensures
        r@ == "To test code "@ + dry@ + ", avoid "@ + wet@,
{
    let mut r = "To test code ".to_owned();
    r.append(dry);
    r.append(", avoid ");
    r.append(wet);
    r
}

pub fn theres_no_success_all(crates_fail: &mut String) -> (r: String)
    ensures
        final(crates_fail)@ == old(crates_fail)@,
        r@ == "There's no success, all "@ + old(crates_fail)@,
{
    let mut r = "There's no success, all ".to_owned();
    r.append(crates_fail.as_str());
    r
}

pub fn to_mock_fn_in_place() -> (r: (String, String))
    ensures
        r.0@ == "To mock"@,
        r.1@ == "'fn' in place"@,
{
    ("To mock".to_owned(), "'fn' in place".to_owned())
}

pub fn so_then_github_please_behold() -> (r: String)
    ensures
        r@ == "So then GitHub please behold"@,
{
    "So then GitHub please behold".to_owned()
}

pub fn there_is_my_brand_new_crate() -> (r: String)
    ensures
        r@ == "There is my brand new crate"@,
{
    "There is my brand new crate".to_owned()
}

pub struct LyricsMocks {}

impl LyricsMocks {
    pub fn so_here_is_covers_mock_functions_daily(_this: &mut Chorus) -> (r: String)
        ensures
            *final(_this) == *old(_this),
            r@ == "So here is 'covers', mock functions daily"@,
    {
        "So here is 'covers', mock functions daily".to_owned()
    }
}

/// The substitute for the pre-chorus opener simply sings the original line.
pub fn your_stare_was_holding_() -> (r: String)
    ensures
        r@ == "Your stare was holding"@,
{
    pre_chorus::your_stare_was_holding()
}

pub fn good_i_create_this_and_it_is_lightweight() -> (r: String)
    ensures
        r@ == "Good, I create this and it is lightweight"@,
{
    "Good, I create this and it is lightweight".to_owned()
}

pub fn it_rocks() -> (r: String)
    ensures
        r@ == "It rocks!"@,
{
    "It rocks!".to_owned()
}

/// The whole original rendition, from the four fill-in words.
pub open spec fn original_lyric(
    well: Seq<char>,
    never: Seq<char>,
    tell: Seq<char>,
    it_fell: Seq<char>,
) -> Seq<char> {
    "I threw a wish in "@ + well + seq!['\n'] + "Don't ask me I'll "@ + never + " "@ + tell
        + seq!['\n'] + "I looked at you as "@ + it_fell + seq!['\n'] + "And now you're"@
        + seq![' '] + "in my way"@ + seq!['\n', '\n'] + "I'd trade my soul for a wish"@
        + seq!['\n'] + "Pennies and dimes for a kiss"@ + seq!['\n'] + "I wasn't looking for this"@
        + seq!['\n'] + "But now you're in my way"@ + seq!['\n', '\n'] + "Your stare was holding"@
        + seq!['\n'] + "Ripped jeans, skin was showin'"@ + seq!['\n']
        + "Hot night, wind was blowin'"@ + seq!['\n'] + "Where you think you're going baby?"@
        + seq!['\n', '\n'] + "Hey, I just met you and this is crazy"@ + seq!['\n']
        + "But here's my number, so call me maybe"@ + seq!['\n']
        + "It's hard to look right at you baby"@ + seq!['\n']
        + "But here's my number, so call me maybe"@ + seq!['\n', '\n'] + "Encore!"@ + seq!['\n']
}

/// Sings the whole song: every line comes from its own function, joined with
/// blank lines between stanzas.
#[verifier::rlimit(100)]
pub fn call_me_maybe(params: &[&str]) -> (r: String)
    requires
        params@.len() >= 4,
    ensures
        r@ == original_lyric(params@[0]@, params@[1]@, params@[2]@, params@[3]@),
{
    let well: String = params[0].to_owned();
    let never: &str = params[1];
    let tell: &str = params[2];
    let mut it_fell: String = params[3].to_owned();

    let mut out = i_threw_a_wish_in(well);
    push_char(&mut out, '\n');
    let l2 = dont_ask_me_i_ll(never, tell);
    out.append(l2.as_str());
    push_char(&mut out, '\n');
    let l3 = i_looked_at_you_as(&mut it_fell);
    out.append(l3.as_str());
    push_char(&mut out, '\n');
    let t1 = and_now_youre_in_my_way();
    let t2 = and_now_youre_in_my_way();
    out.append(t1.0.as_str());
    push_char(&mut out, ' ');
    out.append(t2.1.as_str());
    push_char(&mut out, '\n');
    push_char(&mut out, '\n');

    let l5 = id_trade_my_soul_for_a_wish();
    out.append(l5.as_str());
    push_char(&mut out, '\n');
    let l6 = pennies_and_dimes_for_a_kiss();
    out.append(l6.as_str());
    push_char(&mut out, '\n');
    let l7 = i_wasnt_looking_for_this();
    out.append(l7.as_str());
    push_char(&mut out, '\n');
    let l8 = but_now_youre_in_my_way();
    out.append(l8.as_str());
    push_char(&mut out, '\n');
    push_char(&mut out, '\n');

    let l9 = pre_chorus::your_stare_was_holding();
    out.append(l9.as_str());
    push_char(&mut out, '\n');
    let l10 = pre_chorus::ripped_jeans_skin_was_showin();
    out.append(l10.as_str());
    push_char(&mut out, '\n');
    let l11 = pre_chorus::hot_night_wind_was_blowin();
    out.append(l11.as_str());
    push_char(&mut out, '\n');
    let l12 = pre_chorus::where_you_think_youre_going_baby();
    out.append(l12.as_str());
    push_char(&mut out, '\n');
    push_char(&mut out, '\n');

    let l13 = Chorus::hey_i_just_met_you_and_this_is_crazy();
    out.append(l13.as_str());
    push_char(&mut out, '\n');
    let c1 = Chorus {  };
    let l14 = c1.but_heres_my_number_so_call_me_maybe();
    out.append(l14.as_str());
    push_char(&mut out, '\n');
    let c2 = Chorus {  };
    let l15 = c2.its_hard_to_look_right_at_you_baby();
    out.append(l15.as_str());
    push_char(&mut out, '\n');
    let mut c3 = Chorus {  };
    let l16 = c3.but_here_is_my_number_so_call_me_maybe();
    out.append(l16.as_str());
    push_char(&mut out, '\n');
    push_char(&mut out, '\n');

    let l17 = applause();
    out.append(l17.as_str());
    push_char(&mut out, '\n');
    proof {
        assert(out@ =~= original_lyric(params@[0]@, params@[1]@, params@[2]@, params@[3]@));
    }
    out
}

/// The lines that `beautify` keeps: each line trimmed, empty lines dropped.
pub open spec fn kept_lines(s: Seq<char>) -> Seq<Seq<char>> {
    split_ch(s, '\n').map_values(|l: Seq<char>| trim_spec(l)).filter(|l: Seq<char>| l.len() > 0)
}

/// Lines joined back with single newlines.
pub open spec fn join_nl(ls: Seq<Seq<char>>) -> Seq<char>
    decreases ls.len(),
{
    if ls.len() == 0 {
        Seq::empty()
    } else if ls.len() == 1 {
        ls[0]
    } else {
        ls[0] + seq!['\n'] + join_nl(ls.drop_first())
    }
}

/// The normal form that renditions are compared in.
pub open spec fn beautify_spec(s: Seq<char>) -> Seq<char> {
    join_nl(kept_lines(s))
}

proof fn lemma_join_nl_push(ls: Seq<Seq<char>>, x: Seq<char>)
    ensures
        join_nl(ls.push(x)) == if ls.len() == 0 {
            x
        } else {
            join_nl(ls) + seq!['\n'] + x
        },
    decreases ls.len(),
{
    if ls.len() == 0 {
        assert(ls.push(x) =~= seq![x]);
        assert(join_nl(seq![x]) == x);
    } else if ls.len() == 1 {
        assert(ls.push(x).drop_first() =~= seq![x]);
        assert(join_nl(seq![x]) == x);
        assert((ls.push(x))[0] == ls[0]);
        assert(join_nl(ls.push(x)) == ls[0] + seq!['\n'] + x);
        assert(join_nl(ls) == ls[0]);
    } else {
        lemma_join_nl_push(ls.drop_first(), x);
        assert(ls.push(x).drop_first() =~= ls.drop_first().push(x));
        assert((ls.push(x))[0] == ls[0]);
        assert(join_nl(ls.push(x)) == ls[0] + seq!['\n'] + (join_nl(ls.drop_first()) + seq!['\n']
            + x));
        assert(ls[0] + seq!['\n'] + (join_nl(ls.drop_first()) + seq!['\n'] + x) =~= (ls[0]
            + seq!['\n'] + join_nl(ls.drop_first())) + seq!['\n'] + x);
    }
}

/// Trims every line, drops the empty ones and joins the rest with single
/// newlines, as `beautify_spec` describes it.
pub fn beautify(lyrics: &str) -> (r: String)
    ensures
        r@ == beautify_spec(lyrics@),
{
    let cs = str_chars(lyrics);
    let pieces = split_chars(&cs, '\n');
    let ghost pv = split_ch(lyrics@, '\n');
    let mut out = String::new();
    let mut any = false;
    let mut i: usize = 0;
    proof {
        assert(pv.take(0) =~= Seq::<Seq<char>>::empty());
        assert(pv.take(0).map_values(|l: Seq<char>| trim_spec(l)).filter(
            |l: Seq<char>| l.len() > 0,
        ) =~= Seq::<Seq<char>>::empty());
    }
    while i < pieces.len()
        invariant
            0 <= i <= pieces.len(),
            pv == split_ch(lyrics@, '\n'),
            pieces@.map_values(|p: Vec<char>| p@) == pv,
            ({
                let done = pv.take(i as int).map_values(|l: Seq<char>| trim_spec(l)).filter(
                    |l: Seq<char>| l.len() > 0,
                );
                out@ == join_nl(done) && any == (done.len() > 0)
            }),
        decreases pieces.len() - i,
    {
        let ghost done = pv.take(i as int).map_values(|l: Seq<char>| trim_spec(l)).filter(
            |l: Seq<char>| l.len() > 0,
        );
        let trimmed = trim_copy(&pieces[i]);
        proof {
            reveal_with_fuel(Seq::filter, 2);
            assert(pieces@.map_values(|p: Vec<char>| p@)[i as int] == pv[i as int]);
            let mapped = pv.take(i as int).map_values(|l: Seq<char>| trim_spec(l));
            let mapped2 = pv.take(i + 1).map_values(|l: Seq<char>| trim_spec(l));
            assert(pv.take(i + 1) =~= pv.take(i as int).push(pv[i as int]));
            assert(mapped2 =~= mapped.push(trim_spec(pv[i as int])));
            assert(mapped2.drop_last() =~= mapped);
            assert(mapped2.last() == trim_spec(pv[i as int]));
            if trim_spec(pv[i as int]).len() > 0 {
                assert(mapped2.filter(|l: Seq<char>| l.len() > 0) == done.push(
                    trim_spec(pv[i as int]),
                ));
                lemma_join_nl_push(done, trim_spec(pv[i as int]));
            } else {
                assert(mapped2.filter(|l: Seq<char>| l.len() > 0) == done);
            }
        }
        if trimmed.len() > 0 {
            if any {
                push_char(&mut out, '\n');
            }
            let text = to_text(&trimmed);
            out.append(text.as_str());
            any = true;
            proof {
                assert(out@ =~= join_nl(
                    pv.take(i + 1).map_values(|l: Seq<char>| trim_spec(l)).filter(
                        |l: Seq<char>| l.len() > 0,
                    ),
                ));
            }
        }
        i = i + 1;
    }
    proof {
        assert(pv.take(pieces@.len() as int) =~= pv);
    }
    out
}

} // verus!
