//! The pipeline macro: a rewrite of the tree before anything is evaluated.

use crate::ast::{copy_node, lemma_model_of_list, models, spanned_model, Expr, List, Span, Spanned};
use crate::eval::error::{ErrorModel, EvalError};
use crate::eval::semantics::{thread_step, threaded};
use vstd::prelude::*;

verus! {

/// Whether the result of a rewrite in executable form is the result `want`.
pub open spec fn rewritten_as(
    r: Result<Spanned, EvalError>,
    want: Result<(Expr, Span), ErrorModel>,
) -> bool {
    match r {
        Ok(node) => want == Ok::<(Expr, Span), ErrorModel>(spanned_model(node)),
        Err(e) => want == Err::<(Expr, Span), ErrorModel>(e@),
    }
}

/// One step of a pipeline: `node` becomes the first operand of `step`.
pub fn rewrite_step(node: Spanned, step: &Spanned) -> (r: Result<Spanned, EvalError>)
    ensures
        rewritten_as(r, thread_step(spanned_model(node), spanned_model(*step))),
{
    match &step.0 {
        List::Sym(_) => {
            let head = copy_node(step);
            let ghost node_model = spanned_model(node);
            let mut v: Vec<Spanned> = Vec::new();
            v.push(head);
            v.push(node);
            proof {
                lemma_model_of_list(v);
                assert(models(v@) =~= seq![spanned_model(*step), node_model]);
            }
            Ok((List::Cons(v), step.1))
        },
        List::Cons(xs) => {
            proof {
                lemma_model_of_list(*xs);
            }
            if xs.len() == 0 {
                return Err(EvalError::EmptyPipelineFunction);
            }
            let ghost node_model = spanned_model(node);
            let ghost all = models(xs@);
            let mut v: Vec<Spanned> = Vec::new();
            v.push(copy_node(&xs[0]));
            v.push(node);
            let mut i: usize = 1;
            while i < xs.len()
                invariant
                    1 <= i <= xs.len(),
                    all == models(xs@),
                    models(v@) =~= seq![all[0], node_model] + all.subrange(1, i as int),
                decreases xs.len() - i,
            {
                let ghost before = models(v@);
                v.push(copy_node(&xs[i]));
                proof {
                    assert(models(v@) =~= before.push(all[i as int]));
                }
                i += 1;
            }
            proof {
                lemma_model_of_list(v);
            }
            Ok((List::Cons(v), step.1))
        },
        _ => Err(EvalError::UnsupportedPipelineStep),
    }
}

/// Once a step cannot be taken, the pipeline stays at its error.
pub proof fn lemma_threaded_stops(first: (Expr, Span), steps: Seq<(Expr, Span)>, at: nat, count: nat)
    requires
        at <= count,
        threaded(first, steps, at) is Err,
    ensures
        threaded(first, steps, count) == threaded(first, steps, at),
    decreases count,
{
    if at < count {
        lemma_threaded_stops(first, steps, at, (count - 1) as nat);
    }
}

/// The node that a pipeline builds: `first` threaded through the nodes of
/// `nodes` from the place `from` on.
pub fn rewrite(
    first: &Spanned,
    nodes: &Vec<Spanned>,
    from: usize,
) -> (r: Result<Spanned, EvalError>)
    requires
        from <= nodes@.len(),
    ensures
        rewritten_as(
            r,
            threaded(
                spanned_model(*first),
                models(nodes@).subrange(from as int, nodes@.len() as int),
                (nodes@.len() - from) as nat,
            ),
        ),
{
    let ghost start = spanned_model(*first);
    let ghost steps = models(nodes@).subrange(from as int, nodes@.len() as int);
    let mut node = copy_node(first);
    let mut i: usize = from;
    while i < nodes.len()
        invariant
            from <= i <= nodes.len(),
            start == spanned_model(*first),
            steps == models(nodes@).subrange(from as int, nodes@.len() as int),
            threaded(start, steps, (i - from) as nat) == Ok::<(Expr, Span), ErrorModel>(spanned_model(node)),
        decreases nodes.len() - i,
    {
        let ghost so_far = spanned_model(node);
        proof {
            assert(steps[i - from] == spanned_model(nodes@[i as int]));
            assert(steps.len() == nodes@.len() - from);
            assert(threaded(start, steps, (i - from + 1) as nat) == thread_step(so_far, steps[i - from]));
        }
        match rewrite_step(node, &nodes[i]) {
            Ok(next) => {
                node = next;
            },
            Err(e) => {
                proof {
                    lemma_threaded_stops(start, steps, (i - from + 1) as nat, (nodes@.len() - from) as nat);
                }
                return Err(e);
            },
        }
        i += 1;
    }
    Ok(node)
}

} // verus!
