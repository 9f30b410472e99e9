//! The properties that the rewriter guarantees, stated and proved over the
//! functional description `rewrite_spec` of its output.

use vstd::prelude::*;
use crate::directive::{spec_scope_is_impl, DirView};
use crate::rewrite::{
    arg_names, args_self, branch_stmt, buffer_name, cfg_guard, compiled_branch, dispatcher_body,
    join_args, orig_callee, ref_tokens, rewrite_spec, scan_step, scan_toks, self_tok,
    split_buffers, stage_lt, Stage,
};
use crate::token::{Delim, TokView};

verus! {

/// Exclusive dispatch: the emitted dispatcher holds exactly the two guarded
/// branches, their guards are distinct, and under each truth value of the
/// test configuration exactly one branch survives: the mock call in a test
/// build, the fallback call to the renamed original otherwise.
pub proof fn lemma_exclusive_dispatch(
    reference: Seq<char>,
    renamed: Seq<char>,
    args: Seq<TokView>,
    scope: bool,
    test_mode: bool,
)
    ensures
        dispatcher_body(reference, renamed, args, scope) == cfg_guard(true) + compiled_branch(
            reference,
            renamed,
            args,
            scope,
            true,
        ) + cfg_guard(false) + compiled_branch(reference, renamed, args, scope, false),
        cfg_guard(true) != cfg_guard(false),
        compiled_branch(reference, renamed, args, scope, test_mode) == if test_mode {
            branch_stmt(ref_tokens(reference), args)
        } else {
            branch_stmt(orig_callee(renamed, scope), args)
        },
        branch_stmt(ref_tokens(reference), args).last() == TokView::Punct(';'),
        branch_stmt(orig_callee(renamed, scope), args).last() == TokView::Punct(';'),
{
    let g1 = cfg_guard(true);
    let g0 = cfg_guard(false);
    assert(g1[1]->Group_1[1]->Group_1.len() == 1);
    assert(g0[1]->Group_1[1]->Group_1.len() == 2);
    assert(g1 != g0) by {
        if g1 == g0 {
            assert(g1[1] == g0[1]);
        }
    }
    let s1 = branch_stmt(ref_tokens(reference), args);
    assert(s1.last() == TokView::Punct(';'));
    let s0 = branch_stmt(orig_callee(renamed, scope), args);
    assert(s0.last() == TokView::Punct(';'));
}

/// Name preservation: the wrapper's header is, token for token, the prefix
/// of the tagged declaration up to its body group: the same visibility,
/// keyword, bare name, parameter list and return type. In the emitted
/// replacement it stands unchanged between the renamed original and the
/// dispatcher's body.
pub proof fn lemma_name_preservation(toks: Seq<TokView>, d: DirView, prefix: Seq<char>)
    ensures
        ({
            let sc = scan_toks(toks, prefix);
            &&& sc.sig.len() <= toks.len()
            &&& sc.sig == toks.take(sc.sig.len() as int)
            &&& (sc.stage != Stage::FnBodyFound ==> sc.sig == toks)
            &&& (sc.stage == Stage::FnBodyFound ==> sc.sig.len() < toks.len() && (toks[sc.sig.len() as int] matches TokView::Group(dd, _) && dd == Delim::Brace))
            &&& rewrite_spec(toks, d, prefix).subrange(
                sc.orig.len() as int,
                sc.orig.len() + sc.sig.len() as int,
            ) == toks.take(sc.sig.len() as int)
        }),
    decreases toks.len(),
{
    let sc = scan_toks(toks, prefix);
    if toks.len() == 0 {
        assert(sc.sig =~= toks.take(0));
    } else {
        lemma_name_preservation(toks.drop_last(), d, prefix);
        let pre = scan_toks(toks.drop_last(), prefix);
        let t = toks.last();
        assert(sc == scan_step(pre, t, prefix));
        assert(sc.sig == pre.sig || sc.sig == pre.sig.push(t));
        if sc.sig == pre.sig.push(t) && pre.stage != Stage::FnBodyFound {
            assert(sc.stage != Stage::FnBodyFound);
            assert(sc.sig =~= toks);
            assert(sc.sig =~= toks.take(sc.sig.len() as int));
        } else {
            assert(sc.sig == pre.sig);
            assert(sc.stage == Stage::FnBodyFound);
            assert(pre.sig.len() <= toks.drop_last().len());
            if pre.stage == Stage::FnBodyFound {
                assert(pre.sig == toks.drop_last().take(pre.sig.len() as int));
                assert(toks.drop_last().take(pre.sig.len() as int) =~= toks.take(
                    pre.sig.len() as int,
                ));
                assert(toks[pre.sig.len() as int] == toks.drop_last()[pre.sig.len() as int]);
            } else {
                assert(pre.sig == toks.drop_last());
                assert(pre.sig =~= toks.take(toks.len() - 1));
                assert(toks[toks.len() - 1] == t);
                assert(t matches TokView::Group(dd, _) && dd == Delim::Brace);
            }
        }
        let out = rewrite_spec(toks, d, prefix);
        assert(out.subrange(sc.orig.len() as int, sc.orig.len() + sc.sig.len() as int) =~= sc.sig);
    }
}

proof fn lemma_join_positions(names: Seq<TokView>)
    ensures
        join_args(names).len() == if names.len() == 0 {
            0int
        } else {
            2 * names.len() - 1
        },
        forall|k: int| 0 <= k < names.len() ==> #[trigger] join_args(names)[2 * k] == names[k],
        forall|k: int|
            0 <= k < names.len() - 1 ==> #[trigger] join_args(names)[2 * k + 1] == TokView::Punct(','),
    decreases names.len(),
{
    if names.len() <= 1 {
    } else {
        lemma_join_positions(names.drop_first());
        let fwd = join_args(names);
        let rest = join_args(names.drop_first());
        assert(fwd == seq![names[0], TokView::Punct(',')] + rest);
        assert forall|k: int| 0 <= k < names.len() implies fwd[2 * k] == names[k] by {
            if k > 0 {
                assert(fwd[2 * k] == rest[2 * (k - 1)]);
                assert(names.drop_first()[k - 1] == names[k]);
            }
        }
        assert forall|k: int|
            0 <= k < names.len() - 1 implies #[trigger] fwd[2 * k + 1] == TokView::Punct(',') by {
            if k > 0 {
                assert(fwd[2 * k + 1] == rest[2 * (k - 1) + 1]);
            }
        }
    }
}

/// Argument forwarding fidelity: for a parameter list of N buffers the
/// forwarding list holds exactly N entries, in the same order, each the
/// parameter's binding name (`self` for a trailing-`self` buffer, else the
/// buffer's first token, its type dropped), with a single comma between
/// neighbours; and both branch calls hand exactly that list to their callee.
pub proof fn lemma_argument_forwarding(content: Seq<TokView>, callee: Seq<TokView>)
    ensures
        ({
            let names = arg_names(content);
            let fwd = join_args(names);
            &&& names.len() == split_buffers(content).len()
            &&& forall|k: int|
                0 <= k < names.len() ==> names[k] == buffer_name(
                    #[trigger] split_buffers(content)[k],
                )
            &&& fwd.len() == if names.len() == 0 {
                0int
            } else {
                2 * names.len() - 1
            }
            &&& forall|k: int| 0 <= k < names.len() ==> #[trigger] fwd[2 * k] == names[k]
            &&& forall|k: int|
                0 <= k < names.len() - 1 ==> #[trigger] fwd[2 * k + 1] == TokView::Punct(',')
            &&& branch_stmt(callee, names)[1 + callee.len() as int] == TokView::Group(
                Delim::Parenthesis,
                fwd,
            )
        }),
{
    let names = arg_names(content);
    lemma_join_positions(names);
    let stmt = branch_stmt(callee, names);
    assert(stmt[1 + callee.len() as int] == TokView::Group(Delim::Parenthesis, join_args(names)));
}

/// Method qualification: the fallback branch's call to the renamed original
/// is qualified with `Self::` exactly when the parameter list's first
/// forwarding name is `self` or the directive binds `scope` to `impl`;
/// otherwise it is the bare renamed name.
pub proof fn lemma_method_qualification(toks: Seq<TokView>, d: DirView, prefix: Seq<char>)
    ensures
        ({
            let sc = scan_toks(toks, prefix);
            let scope = args_self(sc) || spec_scope_is_impl(d);
            let out = rewrite_spec(toks, d, prefix);
            &&& out.len() == sc.orig.len() + sc.sig.len() + 1
            &&& out.last() == TokView::Group(
                Delim::Brace,
                dispatcher_body(d.reference, sc.renamed, sc.args, scope),
            )
            &&& compiled_branch(d.reference, sc.renamed, sc.args, scope, false) == branch_stmt(
                orig_callee(sc.renamed, scope),
                sc.args,
            )
            &&& (scope ==> orig_callee(sc.renamed, scope) == seq![
                TokView::Ident("Self"@),
                TokView::Punct(':'),
                TokView::Punct(':'),
                TokView::Ident(sc.renamed),
            ])
            &&& (!scope ==> orig_callee(sc.renamed, scope) == seq![TokView::Ident(sc.renamed)])
            &&& (scope <==> (sc.args.len() > 0 && sc.args[0] == self_tok()) || spec_scope_is_impl(
                d,
            ))
        }),
{
    let sc = scan_toks(toks, prefix);
    let out = rewrite_spec(toks, d, prefix);
    assert(out.len() == sc.orig.len() + sc.sig.len() + 1);
    assert(out.last() == out[sc.orig.len() + sc.sig.len() as int]);
}

/// Original preservation: the renamed original grows by at most the one
/// forced `pub` token, none at all while no declaration keyword was seen,
/// and from the body group on every token of the declaration stands in it
/// verbatim, shifted only by that injection. The fallback branch thus calls
/// a copy whose body is exactly the tagged function's own.
pub proof fn lemma_original_preservation(toks: Seq<TokView>, prefix: Seq<char>)
    ensures
        ({
            let sc = scan_toks(toks, prefix);
            &&& toks.len() <= sc.orig.len() <= toks.len() + 1
            &&& (stage_lt(sc.stage, Stage::FnIdentFound) ==> sc.orig.len() == toks.len())
            &&& forall|i: int|
                sc.sig.len() <= i < toks.len() ==> sc.orig[i + sc.orig.len() - toks.len()]
                    == #[trigger] toks[i]
        }),
    decreases toks.len(),
{
    let dv = DirView { reference: Seq::empty(), options: Seq::empty() };
    let sc = scan_toks(toks, prefix);
    if toks.len() == 0 {
    } else {
        lemma_original_preservation(toks.drop_last(), prefix);
        lemma_name_preservation(toks.drop_last(), dv, prefix);
        lemma_name_preservation(toks, dv, prefix);
        let pre = scan_toks(toks.drop_last(), prefix);
        let t = toks.last();
        let n = toks.len() as int;
        assert(sc == scan_step(pre, t, prefix));
        if sc.sig == pre.sig.push(t) && pre.stage != Stage::FnBodyFound {
            assert(sc.sig.len() == n);
        } else {
            assert(sc.sig == pre.sig);
            let d_pre = pre.orig.len() - (n - 1);
            assert(sc.orig == pre.orig.push(t));
            assert(sc.orig.len() - n == d_pre);
            assert forall|i: int|
                sc.sig.len() <= i < n implies sc.orig[i + sc.orig.len() - n]
                    == #[trigger] toks[i] by {
                if i < n - 1 {
                    assert(pre.orig[i + d_pre] == toks.drop_last()[i]);
                    assert(sc.orig[i + d_pre] == pre.orig[i + d_pre]);
                } else {
                    assert(sc.orig[n - 1 + d_pre] == t);
                }
            }
        }
    }
}

} // verus!
