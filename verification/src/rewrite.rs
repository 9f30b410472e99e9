//! The signature rewriter: a five-state scan over the tagged declaration's
//! tokens that reconstructs a renamed copy of the original function, the new
//! wrapper's header, and the forwarding argument list, and then emits the
//! two-branch dispatcher.

use vstd::prelude::*;
use vstd::string::StringExecFns;
use crate::chars::str_chars;
use crate::directive::{parse, parse_spec, spec_scope_is_impl, Directive, DirectiveError, DirView};
use crate::token::{
    ident, lemma_toks_view_empty, lemma_toks_view_index, lemma_toks_view_len,
    lemma_toks_view_push, tok_view, toks_view, Delim, Token, TokView,
};

verus! {

broadcast use lemma_toks_view_push;

/// The scan's strictly increasing cursor over the declaration.
#[derive(Clone, Copy, Debug, PartialEq, Eq, Structural)]
pub enum Stage {
    Start,
    FnIdentFound,
    FnNameFound,
    FnArgsFound,
    FnBodyFound,
}

/// The position of a stage in the scan's order.
pub open spec fn stage_idx(s: Stage) -> int {
    match s {
        Stage::Start => 0,
        Stage::FnIdentFound => 1,
        Stage::FnNameFound => 2,
        Stage::FnArgsFound => 3,
        Stage::FnBodyFound => 4,
    }
}

pub open spec fn stage_lt(a: Stage, b: Stage) -> bool {
    stage_idx(a) < stage_idx(b)
}

/// The position of a stage, as the scan compares stages.
pub fn stage_num(s: Stage) -> (n: u8)
    ensures
        n as int == stage_idx(s),
{
    match s {
        Stage::Start => 0,
        Stage::FnIdentFound => 1,
        Stage::FnNameFound => 2,
        Stage::FnArgsFound => 3,
        Stage::FnBodyFound => 4,
    }
}

/// Whether a token is a bare comma.
pub open spec fn is_comma(t: TokView) -> bool {
    t == TokView::Punct(',')
}

/// The position of the first top-level comma, or the sequence's length if
/// there is none.
pub open spec fn first_comma(c: Seq<TokView>) -> nat
    decreases c.len(),
{
    if c.len() == 0 {
        0
    } else if is_comma(c[0]) {
        0
    } else {
        1 + first_comma(c.drop_first())
    }
}

/// The parameter buffers of a parameter-list group's content: the runs of
/// tokens between top-level commas, a trailing comma yielding no buffer.
pub open spec fn split_buffers(c: Seq<TokView>) -> Seq<Seq<TokView>>
    decreases c.len(),
{
    if c.len() == 0 {
        Seq::empty()
    } else {
        let i = first_comma(c);
        if i >= c.len() {
            seq![c]
        } else {
            seq![c.take(i as int)] + split_buffers(c.skip(i as int + 1))
        }
    }
}

/// The identifier token `self`.
pub open spec fn self_tok() -> TokView {
    TokView::Ident("self"@)
}

/// The forwarding name of one parameter buffer: the literal `self` when the
/// buffer's last token is the identifier `self`, else the buffer's first
/// token, the binding identifier; any `: Type` tokens after it are dropped.
pub open spec fn buffer_name(b: Seq<TokView>) -> TokView {
    if b.len() > 0 && b.last() == self_tok() {
        self_tok()
    } else {
        b[0]
    }
}

/// The ordered forwarding names of a parameter-list group's content.
pub open spec fn arg_names(c: Seq<TokView>) -> Seq<TokView> {
    split_buffers(c).map_values(|b: Seq<TokView>| buffer_name(b))
}

/// Whether every parameter buffer is non-empty: a leading or doubled
/// top-level comma is rejected.
pub open spec fn params_wf(c: Seq<TokView>) -> bool {
    forall|k: int| 0 <= k < split_buffers(c).len() ==> #[trigger] split_buffers(c)[k].len() > 0
}

/// The scan's accumulated state after some prefix of the declaration.
#[verifier::ext_equal]
pub ghost struct Scan {
    /// The cursor.
    pub stage: Stage,
    /// Whether a `pub` token was seen before the declaration keyword.
    pub is_public: bool,
    /// The renamed original declaration's tokens.
    pub orig: Seq<TokView>,
    /// The wrapper's header tokens: visibility, keyword, bare name,
    /// parameter list, return type.
    pub sig: Seq<TokView>,
    /// The prefixed name of the renamed original; empty until the name is
    /// found.
    pub renamed: Seq<char>,
    /// The forwarding argument tokens; empty until the parameter list is
    /// found.
    pub args: Seq<TokView>,
}

pub open spec fn scan_init() -> Scan {
    Scan {
        stage: Stage::Start,
        is_public: false,
        orig: Seq::empty(),
        sig: Seq::empty(),
        renamed: Seq::empty(),
        args: Seq::empty(),
    }
}

/// The catch-all transition: any unrecognized token is appended to the
/// renamed original, and to the wrapper's header while the body has not been
/// found.
pub open spec fn scan_catch_all(sc: Scan, t: TokView) -> Scan {
    Scan {
        orig: sc.orig.push(t),
        sig: if stage_lt(sc.stage, Stage::FnBodyFound) {
            sc.sig.push(t)
        } else {
            sc.sig
        },
        ..sc
    }
}

/// One transition of the scan, as the state table gives it.
pub open spec fn scan_step(sc: Scan, t: TokView, prefix: Seq<char>) -> Scan {
    match t {
        TokView::Ident(name) => {
            if stage_lt(sc.stage, Stage::FnIdentFound) {
                if name == "pub"@ {
                    Scan { is_public: true, orig: sc.orig.push(t), sig: sc.sig.push(t), ..sc }
                } else if name == "fn"@ {
                    Scan {
                        stage: Stage::FnIdentFound,
                        orig: if sc.is_public {
                            sc.orig.push(t)
                        } else {
                            sc.orig.push(TokView::Ident("pub"@)).push(t)
                        },
                        sig: sc.sig.push(t),
                        ..sc
                    }
                } else {
                    scan_catch_all(sc, t)
                }
            } else if sc.stage == Stage::FnIdentFound {
                Scan {
                    stage: Stage::FnNameFound,
                    orig: sc.orig.push(TokView::Ident(prefix + name)),
                    sig: sc.sig.push(t),
                    renamed: prefix + name,
                    ..sc
                }
            } else {
                scan_catch_all(sc, t)
            }
        },
        TokView::Group(d, content) => {
            if d == Delim::Parenthesis && stage_lt(sc.stage, Stage::FnArgsFound) {
                Scan {
                    stage: Stage::FnArgsFound,
                    orig: sc.orig.push(t),
                    sig: sc.sig.push(t),
                    args: arg_names(content),
                    ..sc
                }
            } else if d == Delim::Brace && stage_lt(sc.stage, Stage::FnBodyFound) {
                Scan { stage: Stage::FnBodyFound, orig: sc.orig.push(t), ..sc }
            } else {
                scan_catch_all(sc, t)
            }
        },
        _ => scan_catch_all(sc, t),
    }
}

/// The scan's state after the whole token sequence, one left-to-right pass.
pub open spec fn scan_toks(toks: Seq<TokView>, prefix: Seq<char>) -> Scan
    decreases toks.len(),
{
    if toks.len() == 0 {
        scan_init()
    } else {
        scan_step(scan_toks(toks.drop_last(), prefix), toks.last(), prefix)
    }
}

/// Whether the first arg is `self`, the parameter-list half of the
/// method-scope heuristic.
pub open spec fn args_self(sc: Scan) -> bool {
    sc.args.len() > 0 && sc.args[0] == self_tok()
}

/// A well-formed declaration: whichever parenthesized group the scan
/// classifies as the parameter list has only non-empty parameter buffers.
pub open spec fn decl_wf(toks: Seq<TokView>, prefix: Seq<char>) -> bool {
    forall|i: int|
        0 <= i < toks.len() ==> (#[trigger] toks[i] matches TokView::Group(d, content) ==> (d
            == Delim::Parenthesis && stage_lt(
            scan_toks(toks.take(i), prefix).stage,
            Stage::FnArgsFound,
        ) ==> params_wf(content)))
}

/// The forwarding names joined with comma tokens.
pub open spec fn join_args(args: Seq<TokView>) -> Seq<TokView>
    decreases args.len(),
{
    if args.len() == 0 {
        Seq::empty()
    } else if args.len() == 1 {
        args
    } else {
        seq![args[0], TokView::Punct(',')] + join_args(args.drop_first())
    }
}

/// The tokens of a `#[cfg(test)]` or `#[cfg(not(test))]` guard.
pub open spec fn cfg_guard(test: bool) -> Seq<TokView> {
    seq![
        TokView::Punct('#'),
        TokView::Group(
            Delim::Bracket,
            seq![
                TokView::Ident("cfg"@),
                if test {
                    TokView::Group(Delim::Parenthesis, seq![TokView::Ident("test"@)])
                } else {
                    TokView::Group(
                        Delim::Parenthesis,
                        seq![
                            TokView::Ident("not"@),
                            TokView::Group(Delim::Parenthesis, seq![TokView::Ident("test"@)]),
                        ],
                    )
                },
            ],
        ),
    ]
}

/// The tokens of a fully-qualified reference: maximal runs of non-colon
/// characters become identifiers, each colon a punctuation token.
pub open spec fn ref_tokens(s: Seq<char>) -> Seq<TokView>
    decreases s.len(),
{
    if s.len() == 0 {
        Seq::empty()
    } else if s[0] == ':' {
        seq![TokView::Punct(':')] + ref_tokens(s.drop_first())
    } else {
        let i = crate::chars::first_ch(s, ':');
        if i >= s.len() {
            seq![TokView::Ident(s)]
        } else {
            seq![TokView::Ident(s.take(i as int))] + ref_tokens(s.skip(i as int))
        }
    }
}

/// One branch statement: `return callee(args);`.
pub open spec fn branch_stmt(callee: Seq<TokView>, args: Seq<TokView>) -> Seq<TokView> {
    seq![TokView::Ident("return"@)] + callee + seq![
        TokView::Group(Delim::Parenthesis, join_args(args)),
        TokView::Punct(';'),
    ]
}

/// The fallback branch's callee: the renamed original, qualified with
/// `Self::` exactly when the declaration is method-scoped.
pub open spec fn orig_callee(renamed: Seq<char>, scope: bool) -> Seq<TokView> {
    if scope {
        seq![TokView::Ident("Self"@), TokView::Punct(':'), TokView::Punct(':'), TokView::Ident(
            renamed,
        )]
    } else {
        seq![TokView::Ident(renamed)]
    }
}

/// The statement that survives compilation under a given truth value of the
/// test configuration: the mock branch in a test build, the fallback branch
/// otherwise.
pub open spec fn compiled_branch(
    reference: Seq<char>,
    renamed: Seq<char>,
    args: Seq<TokView>,
    scope: bool,
    test_mode: bool,
) -> Seq<TokView> {
    if test_mode {
        branch_stmt(ref_tokens(reference), args)
    } else {
        branch_stmt(orig_callee(renamed, scope), args)
    }
}

/// The dispatcher's body: both guarded branches, in source order.
pub open spec fn dispatcher_body(
    reference: Seq<char>,
    renamed: Seq<char>,
    args: Seq<TokView>,
    scope: bool,
) -> Seq<TokView> {
    cfg_guard(true) + compiled_branch(reference, renamed, args, scope, true) + cfg_guard(false)
        + compiled_branch(reference, renamed, args, scope, false)
}

/// The full replacement for a tagged declaration, outside production mode:
/// the renamed original, then the wrapper's header, then the dispatcher's
/// body as a brace group.
pub open spec fn rewrite_spec(
    toks: Seq<TokView>,
    d: DirView,
    prefix: Seq<char>,
) -> Seq<TokView> {
    let sc = scan_toks(toks, prefix);
    let scope = args_self(sc) || spec_scope_is_impl(d);
    sc.orig + sc.sig + seq![
        TokView::Group(
            Delim::Brace,
            dispatcher_body(d.reference, sc.renamed, sc.args, scope),
        ),
    ]
}

pub proof fn lemma_first_comma_at(c: Seq<TokView>, k: int)
    requires
        0 <= k <= c.len(),
        forall|j: int| 0 <= j < k ==> !is_comma(c[j]),
        k < c.len() ==> is_comma(c[k]),
    ensures
        first_comma(c) == k,
    decreases k,
{
    if c.len() == 0 {
    } else if k == 0 {
    } else {
        lemma_first_comma_at(c.drop_first(), k - 1);
    }
}

proof fn lemma_toks_view1(t: Token)
    ensures
        toks_view(seq![t]) == seq![tok_view(t)],
{
    lemma_toks_view_empty();
    lemma_toks_view_push(Seq::empty(), t);
    assert(Seq::<Token>::empty().push(t) =~= seq![t]);
}

/// The ordered forwarding names of a parameter-list group's content, as
/// `arg_names` describes them: `self` for a parameter whose last token is
/// the identifier `self`, else the parameter's first token.
pub fn parse_args(content: &Vec<Token>) -> (r: Vec<Token>)
    requires
        params_wf(toks_view(content@)),
    ensures
        toks_view(r@) == arg_names(toks_view(content@)),
{
    let self_string: String = "self".to_owned();
    let mut r: Vec<Token> = Vec::new();
    let ghost cv = toks_view(content@);
    let ghost mut done: Seq<Seq<TokView>> = Seq::empty();
    let mut start: usize = 0;
    let mut i: usize = 0;
    proof {
        lemma_toks_view_len(content@);
        assert(cv.skip(0) =~= cv);
        lemma_toks_view_empty();
        assert(done.map_values(|b: Seq<TokView>| buffer_name(b)) =~= Seq::<TokView>::empty());
    }
    while i < content.len()
        invariant
            0 <= start <= i <= content.len(),
            cv == toks_view(content@),
            cv.len() == content@.len(),
            params_wf(cv),
            self_string@ == "self"@,
            forall|j: int| start <= j < i ==> !is_comma(cv[j]),
            split_buffers(cv) == done + split_buffers(cv.skip(start as int)),
            toks_view(r@) == done.map_values(|b: Seq<TokView>| buffer_name(b)),
        decreases content.len() - i,
    {
        let is_comma_here = match &content[i] {
            Token::Punct(c) => *c == ',',
            _ => false,
        };
        proof {
            lemma_toks_view_index(content@, i as int);
            assert(is_comma_here == is_comma(cv[i as int]));
        }
        if is_comma_here {
            let ghost rest = cv.skip(start as int);
            let ghost b = cv.subrange(start as int, i as int);
            proof {
                assert(forall|j: int|
                    0 <= j < i - start ==> rest[j] == cv[j + start] && !is_comma(rest[j]));
                assert(is_comma(rest[i - start]));
                lemma_first_comma_at(rest, i - start);
                assert(rest.take(i - start) =~= b);
                assert(rest.skip(i - start + 1) =~= cv.skip(i + 1));
                assert(split_buffers(rest) == seq![b] + split_buffers(cv.skip(i + 1)));
                assert(split_buffers(cv)[done.len() as int] == b);
                assert(b.len() > 0);
                assert(b.last() == cv[i - 1]);
                assert(b[0] == cv[start as int]);
                lemma_toks_view_index(content@, i - 1);
                lemma_toks_view_index(content@, start as int);
            }
            let name_tok = flush_name(content, start, i, &self_string);
            proof {
                assert(tok_view(name_tok) == buffer_name(b));
                lemma_toks_view_push(r@, name_tok);
                assert((done.push(b)).map_values(|x: Seq<TokView>| buffer_name(x)) =~= done
                    .map_values(|x: Seq<TokView>| buffer_name(x)).push(buffer_name(b)));
                assert(done + (seq![b] + split_buffers(cv.skip(i + 1))) =~= done.push(b)
                    + split_buffers(cv.skip(i + 1)));
            }
            r.push(name_tok);
            proof {
                done = done.push(b);
            }
            start = i + 1;
        } else {
        }
        i = i + 1;
    }
    proof {
        let rest = cv.skip(start as int);
        if start < content.len() {
            assert(forall|j: int|
                0 <= j < rest.len() ==> rest[j] == cv[j + start] && !is_comma(rest[j]));
            lemma_first_comma_at(rest, rest.len() as int);
            assert(split_buffers(rest) == seq![rest]);
            assert(rest.len() > 0);
            assert(rest.last() == cv[cv.len() - 1]);
            assert(rest[0] == cv[start as int]);
            lemma_toks_view_index(content@, cv.len() - 1);
            lemma_toks_view_index(content@, start as int);
        } else {
            assert(rest.len() == 0);
            assert(split_buffers(rest) =~= Seq::<Seq<TokView>>::empty());
            assert(done + split_buffers(rest) =~= done);
        }
    }
    if start < content.len() {
        let n = content.len();
        let ghost b = cv.skip(start as int);
        let name_tok = flush_name(content, start, n, &self_string);
        proof {
            assert(cv.subrange(start as int, n as int) =~= b);
            assert(tok_view(name_tok) == buffer_name(b));
            lemma_toks_view_push(r@, name_tok);
            assert((done.push(b)).map_values(|x: Seq<TokView>| buffer_name(x)) =~= done
                .map_values(|x: Seq<TokView>| buffer_name(x)).push(buffer_name(b)));
            assert(done + seq![b] =~= done.push(b));
        }
        r.push(name_tok);
        proof {
            done = done.push(b);
        }
    }
    proof {
        assert(arg_names(cv) == done.map_values(|b: Seq<TokView>| buffer_name(b)));
    }
    r
}

proof fn lemma_scan_snoc(tv: Seq<TokView>, i: int, prefix: Seq<char>)
    requires
        0 <= i < tv.len(),
    ensures
        scan_toks(tv.take(i + 1), prefix) == scan_step(scan_toks(tv.take(i), prefix), tv[i], prefix),
{
    assert(tv.take(i + 1).drop_last() =~= tv.take(i));
    assert(tv.take(i + 1).last() == tv[i]);
}

/// What the tokenizing pass hands on to code generation.
pub struct ScanOut {
    /// The renamed original declaration's tokens.
    pub orig: Vec<Token>,
    /// The wrapper's header tokens.
    pub sig: Vec<Token>,
    /// The prefixed name of the renamed original.
    pub renamed: String,
    /// The forwarding argument tokens.
    pub args: Vec<Token>,
}

/// The tokenizing pass: one left-to-right scan of the declaration, as
/// `scan_toks` describes it.
pub fn scan_decl(tokens: &Vec<Token>, prefix: &str) -> (r: ScanOut)
    requires
        decl_wf(toks_view(tokens@), prefix@),
    ensures
        ({
            let sc = scan_toks(toks_view(tokens@), prefix@);
            &&& toks_view(r.orig@) == sc.orig
            &&& toks_view(r.sig@) == sc.sig
            &&& r.renamed@ == sc.renamed
            &&& toks_view(r.args@) == sc.args
        }),
{
    let pub_string: String = "pub".to_owned();
    let fn_string: String = "fn".to_owned();
    let ghost tv = toks_view(tokens@);
    let mut stage = Stage::Start;
    let mut is_public = false;
    let mut orig: Vec<Token> = Vec::new();
    let mut sig: Vec<Token> = Vec::new();
    let mut renamed: String = String::new();
    let mut args: Vec<Token> = Vec::new();
    let mut i: usize = 0;
    proof {
        lemma_toks_view_len(tokens@);
        lemma_toks_view_empty();
        assert(tv.take(0) =~= Seq::<TokView>::empty());
    }
    while i < tokens.len()
        invariant
            0 <= i <= tokens.len(),
            tv == toks_view(tokens@),
            tv.len() == tokens@.len(),
            decl_wf(tv, prefix@),
            pub_string@ == "pub"@,
            fn_string@ == "fn"@,
            ({
                let sc = scan_toks(tv.take(i as int), prefix@);
                &&& stage == sc.stage
                &&& is_public == sc.is_public
                &&& toks_view(orig@) == sc.orig
                &&& toks_view(sig@) == sc.sig
                &&& renamed@ == sc.renamed
                &&& toks_view(args@) == sc.args
            }),
        decreases tokens.len() - i,
    {
        let ghost sc = scan_toks(tv.take(i as int), prefix@);
        proof {
            lemma_scan_snoc(tv, i as int, prefix@);
            lemma_toks_view_index(tokens@, i as int);
        }
        let t = &tokens[i];
        let sn = stage_num(stage);
        match t {
            Token::Ident(name) => {
                if sn < 1 {
                    if *name == pub_string {
                        is_public = true;
                        sig.push(t.duplicate());
                        orig.push(t.duplicate());
                    } else if *name == fn_string {
                        stage = Stage::FnIdentFound;
                        sig.push(t.duplicate());
                        if !is_public {
                            orig.push(ident("pub"));
                        }
                        orig.push(t.duplicate());
                    } else {
                        orig.push(t.duplicate());
                        sig.push(t.duplicate());
                    }
                } else if sn == 1 {
                    stage = Stage::FnNameFound;
                    sig.push(t.duplicate());
                    let mut rn = prefix.to_owned();
                    rn.append(name.as_str());
                    renamed = rn.clone();
                    orig.push(Token::Ident(rn));
                } else {
                    orig.push(t.duplicate());
                    if sn < 4 {
                        sig.push(t.duplicate());
                    }
                }
            },
            Token::Group(d, content) => {
                let is_paren = *d == Delim::Parenthesis;
                let is_brace = *d == Delim::Brace;
                if is_paren && sn < 3 {
                    stage = Stage::FnArgsFound;
                    proof {
                        assert(tv[i as int] matches TokView::Group(dd, cc) && dd
                            == Delim::Parenthesis && cc == toks_view(content@));
                        assert(params_wf(toks_view(content@)));
                    }
                    args = parse_args(content);
                    sig.push(t.duplicate());
                    orig.push(t.duplicate());
                } else if is_brace && sn < 4 {
                    stage = Stage::FnBodyFound;
                    orig.push(t.duplicate());
                } else {
                    orig.push(t.duplicate());
                    if sn < 4 {
                        sig.push(t.duplicate());
                    }
                }
            },
            _ => {
                orig.push(t.duplicate());
                if sn < 4 {
                    sig.push(t.duplicate());
                }
            },
        }
        proof {
            let sc2 = scan_toks(tv.take(i + 1), prefix@);
            assert(sc2 == scan_step(sc, tv[i as int], prefix@));
            assert(stage == sc2.stage);
            assert(is_public == sc2.is_public);
            assert(toks_view(orig@) == sc2.orig);
            assert(toks_view(sig@) == sc2.sig);
            assert(renamed@ == sc2.renamed);
            assert(toks_view(args@) == sc2.args);
        }
        i = i + 1;
    }
    proof {
        assert(tv.take(tokens@.len() as int) =~= tv);
    }
    ScanOut { orig, sig, renamed, args }
}

/// The forwarding name of the buffer `content[start..end)`.
fn flush_name(content: &Vec<Token>, start: usize, end: usize, self_string: &String) -> (t: Token)
    requires
        0 <= start < end <= content@.len(),
        self_string@ == "self"@,
    ensures
        tok_view(t) == buffer_name(toks_view(content@).subrange(start as int, end as int)),
{
    proof {
        lemma_toks_view_index(content@, end - 1);
        lemma_toks_view_index(content@, start as int);
        let b = toks_view(content@).subrange(start as int, end as int);
        assert(b.last() == toks_view(content@)[end - 1]);
        assert(b[0] == toks_view(content@)[start as int]);
    }
    let last_is_self = match &content[end - 1] {
        Token::Ident(s) => *s == *self_string,
        _ => false,
    };
    if last_is_self {
        ident("self")
    } else {
        content[start].duplicate()
    }
}

/// The tokens of a fully-qualified reference, as `ref_tokens` describes
/// them.
pub fn reference_tokens(reference: &str) -> (r: Vec<Token>)
    ensures
        toks_view(r@) == ref_tokens(reference@),
{
    let cs = str_chars(reference);
    let ghost cv = reference@;
    let mut r: Vec<Token> = Vec::new();
    let mut i: usize = 0;
    proof {
        lemma_toks_view_empty();
        assert(cv.skip(0) =~= cv);
        assert(toks_view(r@) + ref_tokens(cv) =~= ref_tokens(cv));
    }
    while i < cs.len()
        invariant
            0 <= i <= cs.len(),
            cs@ == cv,
            ref_tokens(cv) == toks_view(r@) + ref_tokens(cv.skip(i as int)),
        decreases cs.len() - i,
    {
        let ghost rest = cv.skip(i as int);
        proof {
            assert(rest[0] == cv[i as int]);
        }
        if cs[i] == ':' {
            proof {
                assert(rest.drop_first() =~= cv.skip(i + 1));
                assert(ref_tokens(rest) == seq![TokView::Punct(':')] + ref_tokens(cv.skip(i + 1)));
                assert(toks_view(r@) + (seq![TokView::Punct(':')] + ref_tokens(cv.skip(i + 1)))
                    =~= toks_view(r@).push(TokView::Punct(':')) + ref_tokens(cv.skip(i + 1)));
            }
            r.push(Token::Punct(':'));
            i = i + 1;
        } else {
            let mut j: usize = i;
            let mut seg: Vec<char> = Vec::new();
            while j < cs.len() && cs[j] != ':'
                invariant
                    i <= j <= cs.len(),
                    cs@ == cv,
                    seg@ == cv.subrange(i as int, j as int),
                    forall|m: int| i <= m < j ==> cv[m] != ':',
                decreases cs.len() - j,
            {
                seg.push(cs[j]);
                proof {
                    assert(cv.subrange(i as int, j + 1) =~= cv.subrange(i as int, j as int).push(
                        cv[j as int],
                    ));
                }
                j = j + 1;
            }
            let text = crate::chars::to_text(&seg);
            proof {
                assert(forall|m: int|
                    0 <= m < j - i ==> rest[m] == cv[m + i] && rest[m] != ':');
                if j < cs.len() {
                    assert(rest[j - i] == cv[j as int]);
                    crate::chars::lemma_first_ch_at(rest, ':', j - i);
                    assert(rest.take(j - i) =~= cv.subrange(i as int, j as int));
                    assert(rest.skip(j - i) =~= cv.skip(j as int));
                    assert(ref_tokens(rest) == seq![TokView::Ident(seg@)] + ref_tokens(
                        cv.skip(j as int),
                    ));
                } else {
                    crate::chars::lemma_first_ch_at(rest, ':', rest.len() as int);
                    assert(rest =~= cv.subrange(i as int, cs@.len() as int));
                    assert(ref_tokens(rest) == seq![TokView::Ident(rest)]);
                    assert(cv.skip(j as int).len() == 0);
                    assert(ref_tokens(cv.skip(j as int)) == Seq::<TokView>::empty());
                    assert(ref_tokens(rest) =~= seq![TokView::Ident(seg@)] + ref_tokens(
                        cv.skip(j as int),
                    ));
                }
                assert(toks_view(r@) + (seq![TokView::Ident(seg@)] + ref_tokens(cv.skip(j as int)))
                    =~= toks_view(r@).push(TokView::Ident(seg@)) + ref_tokens(cv.skip(j as int)));
            }
            r.push(Token::Ident(text));
            i = j;
        }
    }
    proof {
        assert(cv.skip(cs@.len() as int).len() == 0);
        assert(ref_tokens(cv.skip(cs@.len() as int)) == Seq::<TokView>::empty());
        assert(toks_view(r@) + Seq::<TokView>::empty() =~= toks_view(r@));
    }
    r
}

proof fn lemma_join_push(s: Seq<TokView>, x: TokView)
    ensures
        join_args(s.push(x)) == if s.len() == 0 {
            seq![x]
        } else {
            join_args(s) + seq![TokView::Punct(','), x]
        },
    decreases s.len(),
{
    if s.len() == 0 {
        assert(s.push(x) =~= seq![x]);
    } else if s.len() == 1 {
        assert(s.push(x).drop_first() =~= seq![x]);
        assert(join_args(seq![x]) == seq![x]);
        assert((s.push(x))[0] == s[0]);
        assert(join_args(s.push(x)) == seq![s[0], TokView::Punct(',')] + seq![x]);
        assert(join_args(s) == s);
        assert(seq![s[0], TokView::Punct(',')] + seq![x] =~= s + seq![TokView::Punct(','), x]);
    } else {
        lemma_join_push(s.drop_first(), x);
        assert(s.push(x).drop_first() =~= s.drop_first().push(x));
        assert(join_args(s.push(x)) == seq![s[0], TokView::Punct(',')] + (join_args(s.drop_first())
            + seq![TokView::Punct(','), x]));
        assert(seq![s[0], TokView::Punct(',')] + (join_args(s.drop_first()) + seq![
            TokView::Punct(','),
            x,
        ]) =~= (seq![s[0], TokView::Punct(',')] + join_args(s.drop_first())) + seq![
            TokView::Punct(','),
            x,
        ]);
    }
}

/// The forwarding names joined with comma tokens, as `join_args` describes
/// them.
pub fn joined_args(args: &Vec<Token>) -> (r: Vec<Token>)
    ensures
        toks_view(r@) == join_args(toks_view(args@)),
{
    let ghost av = toks_view(args@);
    let mut r: Vec<Token> = Vec::new();
    let mut k: usize = 0;
    proof {
        lemma_toks_view_len(args@);
        lemma_toks_view_empty();
        assert(av.take(0) =~= Seq::<TokView>::empty());
    }
    while k < args.len()
        invariant
            0 <= k <= args.len(),
            av == toks_view(args@),
            av.len() == args@.len(),
            toks_view(r@) == join_args(av.take(k as int)),
        decreases args.len() - k,
    {
        proof {
            lemma_toks_view_index(args@, k as int);
            lemma_join_push(av.take(k as int), av[k as int]);
            assert(av.take(k as int).push(av[k as int]) =~= av.take(k + 1));
        }
        if k > 0 {
            r.push(Token::Punct(','));
        }
        r.push(args[k].duplicate());
        proof {
            if k == 0 {
                assert(toks_view(r@) =~= seq![av[0]]);
            }
        }
        k = k + 1;
    }
    proof {
        assert(av.take(args@.len() as int) =~= av);
    }
    r
}

proof fn lemma_toks_view2(a: Token, b: Token)
    ensures
        toks_view(seq![a, b]) == seq![tok_view(a), tok_view(b)],
{
    lemma_toks_view_empty();
    assert(Seq::<Token>::empty().push(a).push(b) =~= seq![a, b]);
    assert(toks_view(seq![a, b]) =~= seq![tok_view(a), tok_view(b)]);
}

/// Appends a `#[cfg(test)]` or `#[cfg(not(test))]` guard.
fn push_cfg_guard(out: &mut Vec<Token>, test: bool)
    ensures
        toks_view(final(out)@) == toks_view(old(out)@) + cfg_guard(test),
{
    out.push(Token::Punct('#'));
    let t_test = ident("test");
    proof {
        lemma_toks_view1(t_test);
    }
    let condition = if test {
        let mut cv: Vec<Token> = Vec::new();
        cv.push(t_test);
        proof {
            assert(cv@ =~= seq![t_test]);
        }
        let g = Token::Group(Delim::Parenthesis, cv);
        proof {
            assert(tok_view(g) == TokView::Group(
                Delim::Parenthesis,
                seq![TokView::Ident("test"@)],
            ));
        }
        g
    } else {
        let mut iv: Vec<Token> = Vec::new();
        iv.push(t_test);
        proof {
            assert(iv@ =~= seq![t_test]);
        }
        let inner = Token::Group(Delim::Parenthesis, iv);
        proof {
            assert(tok_view(inner) == TokView::Group(
                Delim::Parenthesis,
                seq![TokView::Ident("test"@)],
            ));
        }
        let t_not = ident("not");
        proof {
            lemma_toks_view2(t_not, inner);
        }
        let mut nv: Vec<Token> = Vec::new();
        nv.push(t_not);
        nv.push(inner);
        proof {
            assert(nv@ =~= seq![t_not, inner]);
        }
        let g = Token::Group(Delim::Parenthesis, nv);
        proof {
            assert(tok_view(g) == TokView::Group(
                Delim::Parenthesis,
                seq![
                    TokView::Ident("not"@),
                    TokView::Group(Delim::Parenthesis, seq![TokView::Ident("test"@)]),
                ],
            ));
        }
        g
    };
    let t_cfg = ident("cfg");
    proof {
        lemma_toks_view2(t_cfg, condition);
    }
    let mut av: Vec<Token> = Vec::new();
    av.push(t_cfg);
    av.push(condition);
    proof {
        assert(av@ =~= seq![t_cfg, condition]);
    }
    let attr = Token::Group(Delim::Bracket, av);
    out.push(attr);
    proof {
        assert(toks_view(out@) =~= toks_view(old(out)@) + cfg_guard(test));
    }
}

/// Appends one branch statement: `return callee(args);`.
fn push_branch(out: &mut Vec<Token>, callee: Vec<Token>, args: &Vec<Token>)
    ensures
        toks_view(final(out)@) == toks_view(old(out)@) + branch_stmt(
            toks_view(callee@),
            toks_view(args@),
        ),
{
    out.push(ident("return"));
    let mut j: usize = 0;
    let ghost cv = toks_view(callee@);
    let ghost mid = toks_view(out@);
    proof {
        lemma_toks_view_len(callee@);
        assert(mid + cv.take(0) =~= mid);
    }
    while j < callee.len()
        invariant
            0 <= j <= callee.len(),
            cv == toks_view(callee@),
            cv.len() == callee@.len(),
            toks_view(out@) == mid + cv.take(j as int),
        decreases callee.len() - j,
    {
        proof {
            lemma_toks_view_index(callee@, j as int);
            assert((mid + cv.take(j as int)).push(cv[j as int]) =~= mid + cv.take(j + 1));
        }
        out.push(callee[j].duplicate());
        j = j + 1;
    }
    let fwd = joined_args(args);
    let group = Token::Group(Delim::Parenthesis, fwd);
    out.push(group);
    out.push(Token::Punct(';'));
    proof {
        assert(cv.take(callee@.len() as int) =~= cv);
        assert(toks_view(out@) =~= toks_view(old(out)@) + branch_stmt(cv, toks_view(args@)));
    }
}

/// The dispatcher's body, as `dispatcher_body` describes it.
pub fn build_dispatcher(
    reference: &str,
    renamed: &String,
    args: &Vec<Token>,
    scope: bool,
) -> (r: Vec<Token>)
    ensures
        toks_view(r@) == dispatcher_body(reference@, renamed@, toks_view(args@), scope),
{
    let mut r: Vec<Token> = Vec::new();
    proof {
        lemma_toks_view_empty();
    }
    push_cfg_guard(&mut r, true);
    let mock_callee = reference_tokens(reference);
    push_branch(&mut r, mock_callee, args);
    push_cfg_guard(&mut r, false);
    let fallback_callee = if scope {
        let mut v: Vec<Token> = Vec::new();
        v.push(ident("Self"));
        v.push(Token::Punct(':'));
        v.push(Token::Punct(':'));
        v.push(Token::Ident(renamed.clone()));
        proof {
            lemma_toks_view_empty();
            assert(toks_view(v@) =~= orig_callee(renamed@, true));
        }
        v
    } else {
        let mut v: Vec<Token> = Vec::new();
        v.push(Token::Ident(renamed.clone()));
        proof {
            lemma_toks_view_empty();
            assert(toks_view(v@) =~= orig_callee(renamed@, false));
        }
        v
    };
    push_branch(&mut r, fallback_callee, args);
    proof {
        assert(toks_view(r@) =~= dispatcher_body(reference@, renamed@, toks_view(args@), scope));
    }
    r
}

/// The closed set of prefixes for the renamed original's name; exactly one
/// is active per build.
#[derive(Clone, Copy, Debug, PartialEq, Eq, Structural)]
pub enum OriginalPrefix {
    /// A single underscore.
    Underscore,
    /// A double underscore.
    DoubleUnderscore,
    /// The descriptive prefix `_orig_`.
    OrigUnderscore,
}

impl OriginalPrefix {
    /// The prefix's characters.
    pub open spec fn chars(self) -> Seq<char> {
        match self {
            OriginalPrefix::Underscore => "_"@,
            OriginalPrefix::DoubleUnderscore => "__"@,
            OriginalPrefix::OrigUnderscore => "_orig_"@,
        }
    }

    /// The prefix's text.
    pub fn as_str(&self) -> (r: &'static str)
        ensures
            r@ == self.chars(),
    {
        match self {
            OriginalPrefix::Underscore => "_",
            OriginalPrefix::DoubleUnderscore => "__",
            OriginalPrefix::OrigUnderscore => "_orig_",
        }
    }
}

/// The per-build configuration, resolved once by the host build and passed
/// in explicitly.
#[derive(Clone, Copy, Debug, PartialEq, Eq, Structural)]
pub struct Config {
    /// Whether this is a non-development, optimized build: the transformer
    /// is then the identity function.
    pub production: bool,
    /// The active prefix for the renamed original's name.
    pub prefix: OriginalPrefix,
}

/// Rewrites one tagged declaration into the renamed original followed by the
/// dispatching wrapper, exactly as `rewrite_spec` describes the result.
pub fn rewrite(directive: &Directive, tokens: &Vec<Token>, prefix: OriginalPrefix) -> (out: Vec<
    Token,
>)
    requires
        decl_wf(toks_view(tokens@), prefix.chars()),
    ensures
        toks_view(out@) == rewrite_spec(toks_view(tokens@), directive.view_spec(), prefix.chars()),
{
    let s = scan_decl(tokens, prefix.as_str());
    let first_is_self = if s.args.len() > 0 {
        match &s.args[0] {
            Token::Ident(name) => {
                let self_string: String = "self".to_owned();
                *name == self_string
            },
            _ => false,
        }
    } else {
        false
    };
    proof {
        let sc = scan_toks(toks_view(tokens@), prefix.chars());
        lemma_toks_view_len(s.args@);
        if s.args@.len() > 0 {
            lemma_toks_view_index(s.args@, 0);
        }
        assert(first_is_self == args_self(sc));
    }
    let scope = first_is_self || directive.scope_is_impl();
    let body = build_dispatcher(directive.reference.as_str(), &s.renamed, &s.args, scope);
    let mut out = s.orig;
    let sig = s.sig;
    let ghost sc = scan_toks(toks_view(tokens@), prefix.chars());
    let mut j: usize = 0;
    proof {
        lemma_toks_view_len(sig@);
        assert(sc.orig + sc.sig.take(0) =~= sc.orig);
    }
    while j < sig.len()
        invariant
            0 <= j <= sig.len(),
            toks_view(sig@) == sc.sig,
            sc.sig.len() == sig@.len(),
            toks_view(out@) == sc.orig + sc.sig.take(j as int),
        decreases sig.len() - j,
    {
        proof {
            lemma_toks_view_index(sig@, j as int);
            assert((sc.orig + sc.sig.take(j as int)).push(sc.sig[j as int]) =~= sc.orig
                + sc.sig.take(j + 1));
        }
        out.push(sig[j].duplicate());
        j = j + 1;
    }
    out.push(Token::Group(Delim::Brace, body));
    proof {
        assert(sc.sig.take(sig@.len() as int) =~= sc.sig);
        assert(toks_view(out@) =~= rewrite_spec(
            toks_view(tokens@),
            directive.view_spec(),
            prefix.chars(),
        ));
    }
    out
}

/// The transformer's entry point: in a production build the input is
/// returned completely unmodified, before the directive is even parsed;
/// otherwise the directive is parsed and the declaration rewritten, a
/// malformed directive aborting with its error.
pub fn covers(directive_text: &str, input: Vec<Token>, config: Config) -> (r: Result<
    Vec<Token>,
    DirectiveError,
>)
    requires
        !config.production && parse_spec(directive_text@) is Ok ==> decl_wf(
            toks_view(input@),
            config.prefix.chars(),
        ),
    ensures
        config.production ==> r == Ok::<Vec<Token>, DirectiveError>(input),
        !config.production ==> match parse_spec(directive_text@) {
            Ok(dv) => r matches Ok(out) && toks_view(out@) == rewrite_spec(
                toks_view(input@),
                dv,
                config.prefix.chars(),
            ),
            Err(e) => r == Err::<Vec<Token>, DirectiveError>(e),
        },
{
    if config.production {
        return Ok(input);
    }
    match parse(directive_text) {
        Ok(d) => Ok(rewrite(&d, &input, config.prefix)),
        Err(e) => Err(e),
    }
}

} // verus!
