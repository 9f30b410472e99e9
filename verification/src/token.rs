//! The lexical token model that the transformer reads and writes: an ordered
//! sequence of identifiers, punctuation characters, literals and delimited
//! groups, together with its mathematical view.

use vstd::prelude::*;

verus! {

/// The delimiter kind of a token group.
#[derive(Clone, Copy, Debug, PartialEq, Eq, Structural)]
pub enum Delim {
    Parenthesis,
    Brace,
    Bracket,
}

/// One lexical token of a declaration: an identifier, a punctuation
/// character, a literal (kept as its source text), or a delimited group of
/// nested tokens.
#[derive(Debug, PartialEq, Eq)]
pub enum Token {
    Ident(String),
    Punct(char),
    Literal(String),
    Group(Delim, Vec<Token>),
}

/// The mathematical value of a token: the same shape as `Token`, with every
/// string replaced by its sequence of characters.
#[verifier::ext_equal]
pub ghost enum TokView {
    Ident(Seq<char>),
    Punct(char),
    Literal(Seq<char>),
    Group(Delim, Seq<TokView>),
}

/// The mathematical value of one token.
pub open spec fn tok_view(t: Token) -> TokView
    decreases t,
{
    match t {
        Token::Ident(s) => TokView::Ident(s@),
        Token::Punct(c) => TokView::Punct(c),
        Token::Literal(s) => TokView::Literal(s@),
        Token::Group(d, ts) => TokView::Group(d, toks_view(ts@)),
    }
}

/// The mathematical value of a token sequence, element by element.
pub open spec fn toks_view(s: Seq<Token>) -> Seq<TokView>
    decreases s,
{
    if s.len() == 0 {
        Seq::empty()
    } else {
        toks_view(s.drop_last()).push(tok_view(s.last()))
    }
}

pub proof fn lemma_toks_view_len(s: Seq<Token>)
    ensures
        toks_view(s).len() == s.len(),
    decreases s.len(),
{
    if s.len() > 0 {
        lemma_toks_view_len(s.drop_last());
    }
}

pub proof fn lemma_toks_view_index(s: Seq<Token>, i: int)
    requires
        0 <= i < s.len(),
    ensures
        toks_view(s).len() == s.len(),
        toks_view(s)[i] == tok_view(s[i]),
    decreases s.len(),
{
    lemma_toks_view_len(s);
    if i < s.len() - 1 {
        lemma_toks_view_index(s.drop_last(), i);
    } else {
        lemma_toks_view_len(s.drop_last());
    }
}

pub broadcast proof fn lemma_toks_view_push(s: Seq<Token>, t: Token)
    ensures
        #[trigger] toks_view(s.push(t)) == toks_view(s).push(tok_view(t)),
{
    assert(s.push(t).drop_last() =~= s);
    assert(s.push(t).last() == t);
}

pub proof fn lemma_toks_view_empty()
    ensures
        toks_view(Seq::<Token>::empty()) == Seq::<TokView>::empty(),
{
}

impl Token {
    /// A copy of this token with the same mathematical value.
    pub fn duplicate(&self) -> (r: Token)
        ensures
            tok_view(r) == tok_view(*self),
        decreases *self,
    {
        match self {
            Token::Ident(s) => Token::Ident(s.clone()),
            Token::Punct(c) => Token::Punct(*c),
            Token::Literal(s) => Token::Literal(s.clone()),
            Token::Group(d, ts) => Token::Group(*d, duplicate_tokens(ts)),
        }
    }
}

/// A copy of a token sequence with the same mathematical value.
pub fn duplicate_tokens(ts: &Vec<Token>) -> (r: Vec<Token>)
    ensures
        toks_view(r@) == toks_view(ts@),
    decreases *ts,
{
    let mut r: Vec<Token> = Vec::new();
    let mut i: usize = 0;
    proof {
        lemma_toks_view_empty();
    }
    while i < ts.len()
        invariant
            0 <= i <= ts.len(),
            toks_view(r@) == toks_view(ts@.take(i as int)),
        decreases ts.len() - i,
    {
        let t = ts[i].duplicate();
        proof {
            lemma_toks_view_push(r@, t);
            assert(ts@.take(i + 1).drop_last() =~= ts@.take(i as int));
            assert(ts@.take(i + 1).last() == ts@[i as int]);
        }
        r.push(t);
        i = i + 1;
    }
    proof {
        assert(ts@.take(ts.len() as int) =~= ts@);
    }
    r
}

/// An identifier token with the given text.
pub fn ident(text: &str) -> (t: Token)
    ensures
        tok_view(t) == TokView::Ident(text@),
{
    Token::Ident(text.to_owned())
}

} // verus!
