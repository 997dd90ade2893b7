//! Normal-order evaluation one beta step at a time.
use super::common::{beta, beta_spec, eval_view, EvalError, EvalErrorView};
use super::reduction::{
    is_neutral, is_normal, lemma_reduces_refl, lemma_reduces_step, lemma_reduces_trans, one_step,
    reduces,
};
use crate::syntax::{Term, TermInner, TermView};
use vstd::prelude::*;

verus! {

/// The number of steps after which evaluation gives up.
pub const SMALL_STEP_LIMIT: usize = 1_000_000;

/// The number of consecutive steps that do not shrink the term after which
/// evaluation is taken to diverge.
pub const GROWTH_LIMIT: usize = 1000;

/// The leftmost-outermost beta step of `t`, if it has a redex.
pub open spec fn normal_order_step(t: TermView) -> Option<TermView>
    decreases t,
{
    match t {
        TermView::Var { .. } => None,
        TermView::Lambda { param, body } => match normal_order_step(*body) {
            Some(b) => Some(TermView::Lambda { param, body: Box::new(b) }),
            None => None,
        },
        TermView::Apply { func, arg } => match *func {
            TermView::Lambda { body, .. } => Some(beta_spec(*body, *arg).0),
            _ => match normal_order_step(*func) {
                Some(f) => Some(TermView::Apply { func: Box::new(f), arg }),
                None => match normal_order_step(*arg) {
                    Some(a) => Some(TermView::Apply { func, arg: Box::new(a) }),
                    None => None,
                },
            },
        },
    }
}

/// A term has a normal-order step exactly when it is not normal, and that
/// step is a beta step.
pub proof fn law_normal_order_step(t: TermView)
    ensures
        normal_order_step(t) is None <==> is_normal(t),
        normal_order_step(t) matches Some(u) ==> one_step(t, u),
    decreases t,
{
    match t {
        TermView::Var { .. } => {
            assert(is_neutral(t));
        },
        TermView::Lambda { param, body } => {
            law_normal_order_step(*body);
        },
        TermView::Apply { func, arg } => {
            law_normal_order_step(*func);
            law_normal_order_step(*arg);
            assert(is_normal(t) == is_neutral(t));
            match *func {
                TermView::Lambda { .. } => {
                    assert(!is_neutral(*func));
                },
                _ => {
                    assert(is_normal(*func) == is_neutral(*func));
                    if let Some(f) = normal_order_step(*func) {
                        let u = TermView::Apply { func: Box::new(f), arg };
                        assert(one_step(t, u));
                    } else if let Some(a) = normal_order_step(*arg) {
                        let u = TermView::Apply { func, arg: Box::new(a) };
                        assert(one_step(t, u));
                    }
                },
            }
        },
    }
}

/// One normal-order step, or `None` for a normal form.
pub fn step_normal(term: &Term) -> (r: Option<Term>)
    ensures
        match normal_order_step(term@) {
            Some(u) => r matches Some(t) && t@ == u,
            None => r is None,
        },
    decreases term,
{
    proof {
        reveal_with_fuel(crate::syntax::term::term_view, 2);
    }
    match term.inner() {
        TermInner::Apply { func, arg } => match func.inner() {
            TermInner::Lambda { param: _, body } => Some(beta(body, arg).0),
            _ => {
                if let Some(new_func) = step_normal(func) {
                    Some(Term::apply(new_func, arg.clone()))
                } else if let Some(new_arg) = step_normal(arg) {
                    Some(Term::apply(func.clone(), new_arg))
                } else {
                    None
                }
            },
        },
        TermInner::Lambda { param, body } => {
            if let Some(new_body) = step_normal(body) {
                Some(Term::lambda(param.as_str(), new_body))
            } else {
                None
            }
        },
        TermInner::Var { .. } => None,
    }
}

/// The size of a term, or `usize::MAX` for a larger one.
pub open spec fn capped_size(t: TermView) -> usize {
    if t.size() <= usize::MAX {
        t.size() as usize
    } else {
        usize::MAX
    }
}

/// Helper function to estimate term size
pub fn term_size(term: &Term) -> (r: usize)
    ensures
        r == capped_size(term@),
    decreases term,
{
    match term.inner() {
        TermInner::Var { .. } => 1,
        TermInner::Lambda { body, .. } => term_size(body).saturating_add(1),
        TermInner::Apply { func, arg } => term_size(func).saturating_add(term_size(arg)).saturating_add(
            1,
        ),
    }
}

/// Normal-order steps from `t`, the `i`th step next, with `prev_size` the
/// capped size of `t` and `count` the steps in a row that did not shrink
/// the term: a normal form is the result; the run fails once `i` reaches
/// `SMALL_STEP_LIMIT`, or once more than `GROWTH_LIMIT` steps in a row do
/// not shrink the term.
pub open spec fn small_step_run(t: TermView, i: int, prev_size: int, count: int) -> Result<
    TermView,
    EvalErrorView,
>
    decreases SMALL_STEP_LIMIT - i,
{
    if i >= SMALL_STEP_LIMIT {
        Err(EvalErrorView::StepLimitExceeded)
    } else {
        match normal_order_step(t) {
            None => Ok(t),
            Some(u) => {
                let size = capped_size(u) as int;
                if size >= prev_size {
                    if count + 1 > GROWTH_LIMIT {
                        Err(EvalErrorView::Divergence)
                    } else {
                        small_step_run(u, i + 1, size, count + 1)
                    }
                } else {
                    small_step_run(u, i + 1, size, 0)
                }
            },
        }
    }
}

/// What evaluation one step at a time gives for `t`.
pub open spec fn small_step_eval(t: TermView) -> Result<TermView, EvalErrorView> {
    small_step_run(t, 0, capped_size(t) as int, 0)
}

/// Evaluate to normal form by normal-order steps; gives up after too many
/// steps, or after too many steps in a row that do not shrink the term.
pub fn eval(term: Term) -> (r: Result<Term, EvalError>)
    ensures
        r matches Ok(t) ==> is_normal(t@) && reduces(term@, t@),
        r matches Err(e) ==> (e is StepLimitExceeded || e is Divergence),
        is_normal(term@) ==> (r matches Ok(t) && t@ == term@),
        eval_view(r) == small_step_eval(term@),
{
    let ghost start = term@;
    let mut current = term;
    let mut prev_size = term_size(&current);
    let mut non_reducing_count: usize = 0;
    let mut i: usize = 0;
    proof {
        lemma_reduces_refl(start);
    }
    while i < SMALL_STEP_LIMIT
        invariant
            start == term@,
            reduces(start, current@),
            non_reducing_count <= GROWTH_LIMIT,
            is_normal(start) ==> current@ == start && i == 0,
            small_step_eval(start) == small_step_run(
                current@,
                i as int,
                prev_size as int,
                non_reducing_count as int,
            ),
        decreases SMALL_STEP_LIMIT - i,
    {
        proof {
            law_normal_order_step(current@);
        }
        if let Some(next) = step_normal(&current) {
            proof {
                lemma_reduces_step(current@, next@);
                lemma_reduces_trans(start, current@, next@);
            }
            current = next;
            let current_size = term_size(&current);
            if current_size >= prev_size {
                non_reducing_count += 1;
                if non_reducing_count > GROWTH_LIMIT {
                    return Err(EvalError::Divergence);
                }
            } else {
                non_reducing_count = 0;
            }
            prev_size = current_size;
        } else {
            return Ok(current);
        }
        i = i + 1;
    }
    Err(EvalError::StepLimitExceeded)
}

} // verus!
