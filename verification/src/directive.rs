//! The directive parser: the transformer's invocation arguments are a
//! comma-separated list whose first item is the mandatory fully-qualified
//! reference to the substitute implementation, followed by optional
//! `key = value` pairs whose keys and values are lowercased.

use vstd::prelude::*;
use crate::chars::{
    lemma_first_ch_le, lowercase_of, lowered, split_ch, split_chars, str_chars, to_text,
    trim_copy, trim_spec,
};

verus! {

/// Why a directive was rejected; either failure aborts the surrounding
/// build.
#[derive(Clone, Copy, Debug, PartialEq, Eq, Structural)]
pub enum DirectiveError {
    /// The directive text holds no reference to a substitute implementation.
    MissingReference,
    /// An option segment does not split into exactly two non-empty trimmed
    /// parts around `=`.
    MalformedOption,
}

/// A parsed directive: the reference to the substitute implementation, and
/// the optional string-keyed options in the order given.
#[derive(Debug)]
pub struct Directive {
    pub reference: String,
    pub options: Vec<(String, String)>,
}

/// The mathematical value of a parsed directive.
#[verifier::ext_equal]
pub ghost struct DirView {
    pub reference: Seq<char>,
    pub options: Seq<(Seq<char>, Seq<char>)>,
}

/// The mathematical value of the option list.
pub open spec fn opts_view(v: Seq<(String, String)>) -> Seq<(Seq<char>, Seq<char>)> {
    v.map_values(|p: (String, String)| (p.0@, p.1@))
}

impl Directive {
    pub open spec fn view_spec(&self) -> DirView {
        DirView { reference: self.reference@, options: opts_view(self.options@) }
    }
}

/// The value bound to `key`, where the last occurrence of a repeated key
/// wins.
pub open spec fn opt_lookup(opts: Seq<(Seq<char>, Seq<char>)>, key: Seq<char>) -> Option<
    Seq<char>,
>
    decreases opts.len(),
{
    if opts.len() == 0 {
        None
    } else if opts.last().0 == key {
        Some(opts.last().1)
    } else {
        opt_lookup(opts.drop_last(), key)
    }
}

/// What parsing the option segments yields: the lowercased pairs in order,
/// or the first failure.
pub open spec fn parse_opts(pieces: Seq<Seq<char>>) -> Result<
    Seq<(Seq<char>, Seq<char>)>,
    DirectiveError,
>
    decreases pieces.len(),
{
    if pieces.len() == 0 {
        Ok(Seq::empty())
    } else {
        let parts = split_ch(pieces[0], '=');
        if parts.len() != 2 {
            Err(DirectiveError::MalformedOption)
        } else {
            let k = trim_spec(parts[0]);
            let v = trim_spec(parts[1]);
            if k.len() == 0 || v.len() == 0 {
                Err(DirectiveError::MalformedOption)
            } else {
                match parse_opts(pieces.drop_first()) {
                    Ok(rest) => Ok(seq![(lowercase_of(k), lowercase_of(v))] + rest),
                    Err(e) => Err(e),
                }
            }
        }
    }
}

/// What parsing a directive text yields: the trimmed first comma-separated
/// item is the reference, kept verbatim; every further item must be a
/// well-formed `key = value` option.
pub open spec fn parse_spec(text: Seq<char>) -> Result<DirView, DirectiveError> {
    let pieces = split_ch(text, ',');
    let reference = trim_spec(pieces[0]);
    if reference.len() == 0 {
        Err(DirectiveError::MissingReference)
    } else {
        match parse_opts(pieces.drop_first()) {
            Ok(opts) => Ok(DirView { reference, options: opts }),
            Err(e) => Err(e),
        }
    }
}

/// Parses a directive text, as `parse_spec` describes it: rejects a missing
/// reference and any option that is not exactly `key = value` with two
/// non-empty trimmed parts.
pub fn parse(text: &str) -> (r: Result<Directive, DirectiveError>)
    ensures
        match r {
            Ok(d) => parse_spec(text@) == Ok::<DirView, DirectiveError>(d.view_spec()),
            Err(e) => parse_spec(text@) == Err::<DirView, DirectiveError>(e),
        },
{
    let cs = str_chars(text);
    let pieces = split_chars(&cs, ',');
    let ghost gp = split_ch(text@, ',');
    proof {
        assert(pieces@.map_values(|p: Vec<char>| p@).len() == gp.len());
        assert(gp.len() > 0) by {
            lemma_first_ch_le(text@, ',');
        }
        assert(pieces@.map_values(|p: Vec<char>| p@)[0] == gp[0]);
    }
    let reference_chars = trim_copy(&pieces[0]);
    if reference_chars.len() == 0 {
        return Err(DirectiveError::MissingReference);
    }
    let reference = to_text(&reference_chars);
    let mut options: Vec<(String, String)> = Vec::new();
    let mut i: usize = 1;
    proof {
        assert(gp.drop_first() =~= gp.skip(1));
        assert(opts_view(options@) =~= Seq::<(Seq<char>, Seq<char>)>::empty());
        assert forall|r2: Seq<(Seq<char>, Seq<char>)>|
            opts_view(options@) + r2 =~= r2 by {}
    }
    while i < pieces.len()
        invariant
            1 <= i <= pieces.len(),
            gp == split_ch(text@, ','),
            pieces@.map_values(|p: Vec<char>| p@) == gp,
            trim_spec(gp[0]).len() > 0,
            parse_opts(gp.drop_first()) == match parse_opts(gp.skip(i as int)) {
                Ok(rest) => Ok::<Seq<(Seq<char>, Seq<char>)>, DirectiveError>(
                    opts_view(options@) + rest,
                ),
                Err(e) => Err::<Seq<(Seq<char>, Seq<char>)>, DirectiveError>(e),
            },
        decreases pieces.len() - i,
    {
        let piece = &pieces[i];
        let ghost pv = piece@;
        let ghost rest_pieces = gp.skip(i as int);
        proof {
            assert(gp[i as int] == pieces@.map_values(|p: Vec<char>| p@)[i as int]);
            assert(rest_pieces.len() > 0);
            assert(rest_pieces[0] == pv);
        }
        let parts = split_chars(piece, '=');
        let ghost pp = split_ch(pv, '=');
        if parts.len() != 2 {
            proof {
                assert(pp.len() != 2);
                assert(parse_opts(rest_pieces) == Err::<
                    Seq<(Seq<char>, Seq<char>)>,
                    DirectiveError,
                >(DirectiveError::MalformedOption));
                assert(parse_opts(gp.drop_first()) == Err::<
                    Seq<(Seq<char>, Seq<char>)>,
                    DirectiveError,
                >(DirectiveError::MalformedOption));
                assert(parse_spec(text@) == Err::<DirView, DirectiveError>(
                    DirectiveError::MalformedOption,
                ));
            }
            return Err(DirectiveError::MalformedOption);
        }
        proof {
            assert(parts@.map_values(|p: Vec<char>| p@)[0] == pp[0]);
            assert(parts@.map_values(|p: Vec<char>| p@)[1] == pp[1]);
        }
        let k_chars = trim_copy(&parts[0]);
        let v_chars = trim_copy(&parts[1]);
        if k_chars.len() == 0 || v_chars.len() == 0 {
            proof {
                assert(parse_opts(rest_pieces) == Err::<
                    Seq<(Seq<char>, Seq<char>)>,
                    DirectiveError,
                >(DirectiveError::MalformedOption));
                assert(parse_opts(gp.drop_first()) == Err::<
                    Seq<(Seq<char>, Seq<char>)>,
                    DirectiveError,
                >(DirectiveError::MalformedOption));
                assert(parse_spec(text@) == Err::<DirView, DirectiveError>(
                    DirectiveError::MalformedOption,
                ));
            }
            return Err(DirectiveError::MalformedOption);
        }
        let k_trimmed = to_text(&k_chars);
        let v_trimmed = to_text(&v_chars);
        let k = lowered(k_trimmed.as_str());
        let v = lowered(v_trimmed.as_str());
        proof {
            assert(k@ == lowercase_of(trim_spec(pp[0])));
            assert(v@ == lowercase_of(trim_spec(pp[1])));
            assert(rest_pieces.drop_first() =~= gp.skip(i + 1));
            assert(parse_opts(rest_pieces) == match parse_opts(gp.skip(i + 1)) {
                Ok(r2) => Ok::<Seq<(Seq<char>, Seq<char>)>, DirectiveError>(
                    seq![(k@, v@)] + r2,
                ),
                Err(e) => Err::<Seq<(Seq<char>, Seq<char>)>, DirectiveError>(e),
            });
            assert(opts_view(options@.push((k, v))) =~= opts_view(options@).push((k@, v@)));
            assert forall|r2: Seq<(Seq<char>, Seq<char>)>|
                opts_view(options@) + (seq![(k@, v@)] + r2) =~= opts_view(options@).push(
                    (k@, v@),
                ) + r2 by {}
        }
        options.push((k, v));
        i = i + 1;
    }
    proof {
        assert(gp.skip(pieces.len() as int).len() == 0);
        assert(parse_opts(gp.skip(pieces.len() as int)) == Ok::<
            Seq<(Seq<char>, Seq<char>)>,
            DirectiveError,
        >(Seq::<(Seq<char>, Seq<char>)>::empty()));
        assert(opts_view(options@) + Seq::<(Seq<char>, Seq<char>)>::empty() =~= opts_view(
            options@,
        ));
    }
    Ok(Directive { reference, options })
}

impl Directive {
    /// The value bound to `key`, the last occurrence of a repeated key
    /// winning.
    pub fn option_value(&self, key: &str) -> (r: Option<&String>)
        ensures
            match r {
                Some(v) => opt_lookup(opts_view(self.options@), key@) == Some(v@),
                None => opt_lookup(opts_view(self.options@), key@) is None,
            },
    {
        let key_string = key.to_owned();
        let n = self.options.len();
        let mut j: usize = n;
        proof {
            assert(opts_view(self.options@).take(n as int) =~= opts_view(self.options@));
        }
        while j > 0
            invariant
                0 <= j <= n,
                n == self.options.len(),
                key_string@ == key@,
                opt_lookup(opts_view(self.options@), key@) == opt_lookup(
                    opts_view(self.options@).take(j as int),
                    key@,
                ),
            decreases j,
        {
            proof {
                let ov = opts_view(self.options@);
                assert(ov.take(j as int).last() == ov[j - 1]);
                assert(ov.take(j as int).drop_last() =~= ov.take(j - 1));
                assert(ov[j - 1] == (self.options@[j - 1].0@, self.options@[j - 1].1@));
            }
            if self.options[j - 1].0 == key_string {
                return Some(&self.options[j - 1].1);
            }
            j = j - 1;
        }
        proof {
            assert(opts_view(self.options@).take(0) =~= Seq::<(Seq<char>, Seq<char>)>::empty());
        }
        None
    }

    /// Whether the options force method-scope qualification with
    /// `scope = impl`.
    pub fn scope_is_impl(&self) -> (b: bool)
        ensures
            b == spec_scope_is_impl(self.view_spec()),
    {
        match self.option_value("scope") {
            Some(v) => {
                let impl_string = "impl".to_owned();
                *v == impl_string
            },
            None => false,
        }
    }
}

/// Whether the directive's options bind `scope` to `impl`.
pub open spec fn spec_scope_is_impl(d: DirView) -> bool {
    opt_lookup(d.options, "scope"@) == Some("impl"@)
}

} // verus!
