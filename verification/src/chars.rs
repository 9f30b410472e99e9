//! Character-level helpers: reading a string into its characters, building a
//! string back from characters, whitespace trimming and splitting on a
//! separator character.

use vstd::prelude::*;
use vstd::string::StrSliceExecFns;

verus! {

/// Whether a character has the Unicode `White_Space` property, the set that
/// `str::trim` strips.
pub open spec fn is_space(c: char) -> bool {
    ||| c == ' '
    ||| ('\u{0009}' <= c && c <= '\u{000D}')
    ||| c == '\u{0085}'
    ||| c == '\u{00A0}'
    ||| c == '\u{1680}'
    ||| ('\u{2000}' <= c && c <= '\u{200A}')
    ||| c == '\u{2028}'
    ||| c == '\u{2029}'
    ||| c == '\u{202F}'
    ||| c == '\u{205F}'
    ||| c == '\u{3000}'
}

/// Decides `is_space`.
pub fn space(c: char) -> (b: bool)
    ensures
        b == is_space(c),
{
    c == ' ' || ('\u{0009}' <= c && c <= '\u{000D}') || c == '\u{0085}' || c == '\u{00A0}'
        || c == '\u{1680}' || ('\u{2000}' <= c && c <= '\u{200A}') || c == '\u{2028}'
        || c == '\u{2029}' || c == '\u{202F}' || c == '\u{205F}' || c == '\u{3000}'
}

/// The characters of a string, in order.
pub fn str_chars(s: &str) -> (r: Vec<char>)
    ensures
        r@ == s@,
{
    let n = s.unicode_len();
    let mut r: Vec<char> = Vec::new();
    let mut i: usize = 0;
    while i < n
        invariant
            0 <= i <= n,
            n == s@.len(),
            r@ == s@.take(i as int),
        decreases n - i,
    {
        let c = s.get_char(i);
        r.push(c);
        proof {
            assert(s@.take(i + 1) =~= s@.take(i as int).push(s@[i as int]));
        }
        i = i + 1;
    }
    proof {
        assert(s@.take(n as int) =~= s@);
    }
    r
}

/// Relies on `String::push`: appends one character to the end of the string.
#[verifier::external_body]
pub fn push_char(s: &mut String, c: char)
    ensures
        final(s)@ == old(s)@.push(c),
{
    s.push(c)
}

/// The string holding the given characters, in order.
pub fn to_text(v: &Vec<char>) -> (s: String)
    ensures
        s@ == v@,
{
    let mut s = String::new();
    let mut i: usize = 0;
    while i < v.len()
        invariant
            0 <= i <= v.len(),
            s@ == v@.take(i as int),
        decreases v.len() - i,
    {
        push_char(&mut s, v[i]);
        proof {
            assert(v@.take(i + 1) =~= v@.take(i as int).push(v@[i as int]));
        }
        i = i + 1;
    }
    proof {
        assert(v@.take(v.len() as int) =~= v@);
    }
    s
}

/// The Unicode lowercase form of a character sequence, as `str::to_lowercase`
/// computes it; it depends on the characters alone.
pub uninterp spec fn lowercase_of(s: Seq<char>) -> Seq<char>;

/// Relies on `str::to_lowercase`: the Unicode lowercase form of the string,
/// a function of its characters alone.
#[verifier::external_body]
pub fn lowered(s: &str) -> (r: String)
    ensures
        r@ == lowercase_of(s@),
{
    s.to_lowercase()
}

/// The position of the first occurrence of `c` in `s`, or `s.len()` if there
/// is none.
pub open spec fn first_ch(s: Seq<char>, c: char) -> nat
    decreases s.len(),
{
    if s.len() == 0 {
        0
    } else if s[0] == c {
        0
    } else {
        1 + first_ch(s.drop_first(), c)
    }
}

pub proof fn lemma_first_ch_at(s: Seq<char>, c: char, k: int)
    requires
        0 <= k <= s.len(),
        forall|j: int| 0 <= j < k ==> s[j] != c,
        k < s.len() ==> s[k] == c,
    ensures
        first_ch(s, c) == k,
    decreases k,
{
    if s.len() == 0 {
    } else if k == 0 {
    } else {
        lemma_first_ch_at(s.drop_first(), c, k - 1);
    }
}

pub proof fn lemma_first_ch_le(s: Seq<char>, c: char)
    ensures
        first_ch(s, c) <= s.len(),
        first_ch(s, c) < s.len() ==> s[first_ch(s, c) as int] == c,
        forall|j: int| 0 <= j < first_ch(s, c) ==> s[j] != c,
    decreases s.len(),
{
    if s.len() == 0 {
    } else if s[0] == c {
    } else {
        lemma_first_ch_le(s.drop_first(), c);
        assert forall|j: int| 0 <= j < first_ch(s, c) implies s[j] != c by {
            if j > 0 {
                assert(s.drop_first()[j - 1] == s[j]);
            }
        }
    }
}

/// The pieces of `s` between occurrences of the separator `c`: always at
/// least one piece, as `str::split` yields them.
pub open spec fn split_ch(s: Seq<char>, c: char) -> Seq<Seq<char>>
    decreases s.len(),
{
    let i = first_ch(s, c);
    if i >= s.len() {
        seq![s]
    } else {
        seq![s.take(i as int)] + split_ch(s.skip(i as int + 1), c)
    }
}

/// `s` with leading and trailing whitespace removed.
pub open spec fn trim_spec(s: Seq<char>) -> Seq<char>
    decreases s.len(),
{
    if s.len() == 0 {
        s
    } else if is_space(s[0]) {
        trim_spec(s.drop_first())
    } else if is_space(s.last()) {
        trim_spec(s.drop_last())
    } else {
        s
    }
}

/// The trimmed copy of a character sequence.
pub fn trim_copy(v: &Vec<char>) -> (r: Vec<char>)
    ensures
        r@ == trim_spec(v@),
{
    let mut lo: usize = 0;
    let mut hi: usize = v.len();
    proof {
        assert(v@.subrange(0, v.len() as int) =~= v@);
    }
    while lo < hi && space(v[lo])
        invariant
            0 <= lo <= hi <= v.len(),
            hi == v.len(),
            trim_spec(v@) == trim_spec(v@.subrange(lo as int, hi as int)),
        decreases hi - lo,
    {
        proof {
            let seg = v@.subrange(lo as int, hi as int);
            assert(seg.drop_first() =~= v@.subrange(lo + 1, hi as int));
        }
        lo = lo + 1;
    }
    while lo < hi && space(v[hi - 1])
        invariant
            0 <= lo <= hi <= v.len(),
            lo < hi ==> !is_space(v@.subrange(lo as int, hi as int)[0]),
            trim_spec(v@) == trim_spec(v@.subrange(lo as int, hi as int)),
        decreases hi - lo,
    {
        proof {
            let seg = v@.subrange(lo as int, hi as int);
            assert(seg.drop_last() =~= v@.subrange(lo as int, hi - 1));
        }
        hi = hi - 1;
    }
    let mut r: Vec<char> = Vec::new();
    let mut i: usize = lo;
    while i < hi
        invariant
            lo <= i <= hi <= v.len(),
            r@ == v@.subrange(lo as int, i as int),
        decreases hi - i,
    {
        r.push(v[i]);
        proof {
            assert(v@.subrange(lo as int, i + 1) =~= v@.subrange(lo as int, i as int).push(
                v@[i as int],
            ));
        }
        i = i + 1;
    }
    proof {
        let seg = v@.subrange(lo as int, hi as int);
        assert(trim_spec(seg) == seg);
    }
    r
}

/// The pieces of `v` between occurrences of `c`, as `split_ch` describes
/// them.
pub fn split_chars(v: &Vec<char>, c: char) -> (r: Vec<Vec<char>>)
    ensures
        r@.map_values(|p: Vec<char>| p@) == split_ch(v@, c),
{
    let mut r: Vec<Vec<char>> = Vec::new();
    let mut cur: Vec<char> = Vec::new();
    let mut start: usize = 0;
    let mut i: usize = 0;
    proof {
        assert(v@.skip(0) =~= v@);
        assert(cur@ =~= v@.subrange(0, 0));
        assert(r@.map_values(|p: Vec<char>| p@) =~= Seq::<Seq<char>>::empty());
    }
    while i < v.len()
        invariant
            0 <= start <= i <= v.len(),
            cur@ == v@.subrange(start as int, i as int),
            forall|j: int| start <= j < i ==> v@[j] != c,
            split_ch(v@, c) == r@.map_values(|p: Vec<char>| p@) + split_ch(
                v@.skip(start as int),
                c,
            ),
        decreases v.len() - i,
    {
        if v[i] == c {
            proof {
                let rest = v@.skip(start as int);
                assert(forall|j: int|
                    0 <= j < i - start ==> rest[j] == v@[j + start] && rest[j] != c);
                lemma_first_ch_at(rest, c, i - start);
                assert(rest.take(i - start) =~= v@.subrange(start as int, i as int));
                assert(rest.skip(i - start + 1) =~= v@.skip(i + 1));
                assert(split_ch(rest, c) == seq![cur@] + split_ch(v@.skip(i + 1), c));
                assert((r@.push(cur)).map_values(|p: Vec<char>| p@) =~= r@.map_values(
                    |p: Vec<char>| p@,
                ).push(cur@));
                assert(r@.map_values(|p: Vec<char>| p@) + (seq![cur@] + split_ch(
                    v@.skip(i + 1),
                    c,
                )) =~= r@.map_values(|p: Vec<char>| p@).push(cur@) + split_ch(v@.skip(i + 1), c));
            }
            r.push(cur);
            cur = Vec::new();
            start = i + 1;
            proof {
                assert(cur@ =~= v@.subrange(start as int, start as int));
            }
        } else {
            cur.push(v[i]);
            proof {
                assert(v@.subrange(start as int, i + 1) =~= v@.subrange(start as int, i as int)
                    .push(v@[i as int]));
            }
        }
        i = i + 1;
    }
    proof {
        let rest = v@.skip(start as int);
        assert(forall|j: int|
            0 <= j < rest.len() ==> rest[j] == v@[j + start] && rest[j] != c);
        lemma_first_ch_at(rest, c, rest.len() as int);
        assert(rest =~= v@.subrange(start as int, v.len() as int));
        assert(split_ch(rest, c) == seq![cur@]);
        assert((r@.push(cur)).map_values(|p: Vec<char>| p@) =~= r@.map_values(
            |p: Vec<char>| p@,
        ).push(cur@));
        assert(r@.map_values(|p: Vec<char>| p@) + seq![cur@] =~= r@.map_values(
            |p: Vec<char>| p@,
        ).push(cur@));
    }
    r.push(cur);
    r
}

} // verus!
