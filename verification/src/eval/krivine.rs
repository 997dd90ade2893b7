//! A Krivine machine: weak head reduction with a stack of pending
//! arguments, extended to normal forms by normalising under the lambda it
//! stops at, or else the pending arguments of the variable it stops at.
use super::common::{beta, beta_spec, eval_view, EvalError, EvalErrorView};
use super::reduction::{
    is_neutral, is_normal, lemma_neutral_normal, lemma_reduces_app_arg, lemma_reduces_app_func,
    lemma_reduces_lambda, lemma_reduces_refl, lemma_reduces_step, lemma_reduces_trans, one_step,
    reduces,
};
use crate::syntax::{Term, TermInner, TermView};
use vstd::prelude::*;

verus! {

/// The number of machine steps after which evaluation gives up.
pub const STEP_LIMIT: usize = 1_000_000;

pub open spec fn terms_view(s: Seq<Term>) -> Seq<TermView> {
    s.map_values(|t: Term| t@)
}

/// `h` applied to the pending arguments `st`, the last one first.
pub open spec fn spine(h: TermView, st: Seq<TermView>) -> TermView
    decreases st.len(),
{
    if st.len() == 0 {
        h
    } else {
        spine(TermView::Apply { func: Box::new(h), arg: Box::new(st.last()) }, st.drop_last())
    }
}

/// The sizes of the pending arguments, and one for each.
pub open spec fn pending_size(st: Seq<TermView>) -> nat
    decreases st.len(),
{
    if st.len() == 0 {
        0
    } else {
        pending_size(st.drop_last()) + st.last().size() + 1
    }
}

/// Weak head reduction of `t` with the pending arguments `st`, the
/// `step`th machine step next: an application pushes its argument, a lambda
/// takes the last argument; it stops at a lambda with no argument left or
/// at a variable, and gives up once `step` reaches `STEP_LIMIT`.
pub open spec fn whnf_run(t: TermView, st: Seq<TermView>, step: int) -> Result<
    (TermView, Seq<TermView>, int),
    EvalErrorView,
>
    decreases STEP_LIMIT - step,
{
    if step >= STEP_LIMIT {
        Err(EvalErrorView::StepLimitExceeded)
    } else {
        match t {
            TermView::Apply { func, arg } => whnf_run(*func, st.push(*arg), step + 1),
            TermView::Lambda { body, .. } => if st.len() > 0 {
                whnf_run(beta_spec(*body, st.last()).0, st.drop_last(), step + 1)
            } else {
                Ok((t, st, step))
            },
            TermView::Var { .. } => Ok((t, st, step)),
        }
    }
}

/// Normalisation of `t` from step `step`: a variable is normal; under a
/// lambda the body is normalised; an application is reduced to weak head
/// form, and then the lambda it gives is normalised, or the pending
/// arguments of the variable it gives are, the first one first.
pub open spec fn krivine_run(t: TermView, step: int) -> Result<(TermView, int), EvalErrorView>
    decreases STEP_LIMIT - step, t.size(), 1nat,
{
    if step >= STEP_LIMIT {
        Err(EvalErrorView::StepLimitExceeded)
    } else {
        match t {
            TermView::Var { .. } => Ok((t, step)),
            TermView::Lambda { param, body } => match krivine_run(*body, step + 1) {
                Ok((b, s)) => Ok((TermView::Lambda { param, body: Box::new(b) }, s)),
                Err(e) => Err(e),
            },
            TermView::Apply { .. } => match whnf_run(t, seq![], step) {
                Err(e) => Err(e),
                Ok((h, st, s)) => if s <= step || s >= STEP_LIMIT {
                    Err(EvalErrorView::StepLimitExceeded)
                } else if h is Lambda {
                    krivine_run(h, s)
                } else {
                    args_run(h, st, s)
                },
            },
        }
    }
}

/// `acc` applied to the normal forms of the pending arguments `st`, the
/// last one normalised first, from step `step`.
pub open spec fn args_run(acc: TermView, st: Seq<TermView>, step: int) -> Result<
    (TermView, int),
    EvalErrorView,
>
    decreases STEP_LIMIT - step, pending_size(st), 0nat,
{
    if st.len() == 0 {
        Ok((acc, step))
    } else {
        match krivine_run(st.last(), step) {
            Err(e) => Err(e),
            Ok((n, s)) => if s < step || s >= STEP_LIMIT {
                Err(EvalErrorView::StepLimitExceeded)
            } else {
                args_run(TermView::Apply { func: Box::new(acc), arg: Box::new(n) }, st.drop_last(), s)
            },
        }
    }
}

/// What the Krivine machine gives for `t`: its normalisation from step 0.
pub open spec fn krivine_eval(t: TermView) -> Result<TermView, EvalErrorView> {
    match krivine_run(t, 0) {
        Ok((n, _)) => Ok(n),
        Err(e) => Err(e),
    }
}

/// The model of a normalisation's result.
pub open spec fn run_view(r: Result<(Term, usize), EvalError>) -> Result<(TermView, int), EvalErrorView> {
    match r {
        Ok((t, s)) => Ok((t@, s as int)),
        Err(e) => Err(e@),
    }
}

/// Reduction in head position: if `t` reduces to `u`, then so does `t`
/// applied to the pending arguments to `u` applied to them.
pub proof fn lemma_spine_reduces(t: TermView, u: TermView, st: Seq<TermView>)
    requires
        reduces(t, u),
    ensures
        reduces(spine(t, st), spine(u, st)),
    decreases st.len(),
{
    if st.len() > 0 {
        lemma_reduces_app_func(t, u, st.last());
        lemma_spine_reduces(
            TermView::Apply { func: Box::new(t), arg: Box::new(st.last()) },
            TermView::Apply { func: Box::new(u), arg: Box::new(st.last()) },
            st.drop_last(),
        );
    }
}

proof fn lemma_spine_push(h: TermView, st: Seq<TermView>, a: TermView)
    ensures
        spine(h, st.push(a)) == spine(TermView::Apply { func: Box::new(h), arg: Box::new(a) }, st),
{
    assert(st.push(a).drop_last() =~= st);
}

proof fn lemma_terms_view_push(s: Seq<Term>, t: Term)
    ensures
        terms_view(s.push(t)) == terms_view(s).push(t@),
{
    assert(terms_view(s.push(t)) =~= terms_view(s).push(t@));
}

proof fn lemma_terms_view_pop(s: Seq<Term>)
    requires
        s.len() > 0,
    ensures
        terms_view(s.drop_last()) == terms_view(s).drop_last(),
        terms_view(s).last() == s.last()@,
        terms_view(s).len() == s.len(),
{
    assert(terms_view(s.drop_last()) =~= terms_view(s).drop_last());
}

/// Evaluate a term to normal form using the Krivine machine.
pub fn eval(term: Term) -> (r: Result<Term, EvalError>)
    ensures
        r matches Ok(t) ==> is_normal(t@) && reduces(term@, t@),
        r matches Err(e) ==> e is StepLimitExceeded,
        eval_view(r) == krivine_eval(term@),
{
    match normalize(term, 0) {
        Ok((t, _)) => Ok(t),
        Err(e) => Err(e),
    }
}

/// Normalises `t` from step `step`, returning the normal form and the steps
/// taken by then.
fn normalize(t: Term, step: usize) -> (r: Result<(Term, usize), EvalError>)
    ensures
        run_view(r) == krivine_run(t@, step as int),
        r matches Ok((n, s)) ==> reduces(t@, n@) && is_normal(n@) && step <= s < STEP_LIMIT,
        r matches Err(e) ==> e is StepLimitExceeded,
    decreases STEP_LIMIT - step, t@.size(), 1nat,
{
    if step >= STEP_LIMIT {
        return Err(EvalError::StepLimitExceeded);
    }
    match t.inner() {
        TermInner::Var { .. } => {
            proof {
                lemma_reduces_refl(t@);
                assert(is_neutral(t@));
                lemma_neutral_normal(t@);
            }
            Ok((t.clone(), step))
        },
        TermInner::Lambda { param, body } => {
            match normalize(body.clone(), step + 1) {
                Ok((b, s)) => {
                    proof {
                        lemma_reduces_lambda(param@, body@, b@);
                    }
                    Ok((Term::lambda(param.as_str(), b), s))
                },
                Err(e) => Err(e),
            }
        },
        TermInner::Apply { .. } => {
            let (h, st, s) = match eval_to_whnf(t.clone(), step) {
                Ok(v) => v,
                Err(e) => return Err(e),
            };
            let is_lambda = match h.inner() {
                TermInner::Lambda { .. } => true,
                _ => false,
            };
            if is_lambda {
                match normalize(h, s) {
                    Ok((n, s2)) => {
                        proof {
                            assert(spine(h@, terms_view(st@)) == h@);
                            lemma_reduces_trans(t@, h@, n@);
                        }
                        Ok((n, s2))
                    },
                    Err(e) => Err(e),
                }
            } else {
                proof {
                    assert(is_neutral(h@));
                }
                match normalize_args(h, st, s) {
                    Ok((n, s2)) => {
                        proof {
                            lemma_reduces_trans(t@, spine(h@, terms_view(st@)), n@);
                            lemma_neutral_normal(n@);
                        }
                        Ok((n, s2))
                    },
                    Err(e) => Err(e),
                }
            }
        },
    }
}

/// Applies the normal neutral `acc` to the normal forms of the pending
/// arguments `st`, the last one first, from step `step`.
fn normalize_args(acc: Term, st: Vec<Term>, step: usize) -> (r: Result<(Term, usize), EvalError>)
    requires
        is_neutral(acc@),
        step < STEP_LIMIT,
    ensures
        run_view(r) == args_run(acc@, terms_view(st@), step as int),
        r matches Ok((n, s)) ==> reduces(spine(acc@, terms_view(st@)), n@) && is_neutral(n@) && step <= s
            < STEP_LIMIT,
        r matches Err(e) ==> e is StepLimitExceeded,
    decreases STEP_LIMIT - step, pending_size(terms_view(st@)), 0nat,
{
    let mut st = st;
    let ghost sv = terms_view(st@);
    if st.len() == 0 {
        proof {
            assert(sv.len() == 0);
            lemma_reduces_refl(acc@);
        }
        return Ok((acc, step));
    }
    proof {
        lemma_terms_view_pop(st@);
    }
    let a = st.pop().unwrap();
    match normalize(a, step) {
        Ok((n, s)) => {
            let next = Term::apply(acc, n);
            proof {
                assert(is_neutral(next@));
            }
            match normalize_args(next, st, s) {
                Ok((m, s2)) => {
                    proof {
                        let app = TermView::Apply { func: Box::new(acc@), arg: Box::new(a@) };
                        lemma_reduces_app_arg(acc@, a@, n@);
                        lemma_spine_reduces(app, next@, terms_view(st@));
                        lemma_reduces_trans(spine(acc@, sv), spine(next@, terms_view(st@)), m@);
                    }
                    Ok((m, s2))
                },
                Err(e) => Err(e),
            }
        },
        Err(e) => Err(e),
    }
}

/// Evaluate a term to weak head normal form (WHNF).
///
/// Returns the head and the arguments still pending, the last one applied
/// first; the head is a lambda with no argument left, or a variable.
fn eval_to_whnf(start: Term, start_step: usize) -> (r: Result<(Term, Vec<Term>, usize), EvalError>)
    ensures
        match r {
            Ok((h, st, s)) => whnf_run(start@, seq![], start_step as int) == Ok::<_, EvalErrorView>(
                (h@, terms_view(st@), s as int),
            ),
            Err(e) => whnf_run(start@, seq![], start_step as int) == Err::<
                (TermView, Seq<TermView>, int),
                EvalErrorView,
            >(e@),
        },
        r matches Ok((h, st, s)) ==> {
            &&& reduces(start@, spine(h@, terms_view(st@)))
            &&& (h@ is Lambda && st@.len() == 0) || h@ is Var
            &&& start_step <= s < STEP_LIMIT
            &&& (start@ is Apply ==> start_step < s)
        },
        r matches Err(e) ==> e is StepLimitExceeded,
{
    let ghost t0 = start@;
    let ghost step0 = start_step;
    let mut t = start;
    let mut step = start_step;
    let mut stack: Vec<Term> = Vec::new();
    proof {
        lemma_reduces_refl(t0);
        assert(terms_view(stack@) =~= Seq::<TermView>::empty());
    }
    loop
        invariant
            t0 == start@,
            step0 == start_step,
            step0 <= step,
            step == step0 ==> t@ == t0 && stack@.len() == 0,
            reduces(t0, spine(t@, terms_view(stack@))),
            whnf_run(t0, seq![], step0 as int) == whnf_run(t@, terms_view(stack@), step as int),
        decreases STEP_LIMIT - step,
    {
        if step >= STEP_LIMIT {
            return Err(EvalError::StepLimitExceeded);
        }
        let ghost tv = t@;
        let ghost sv = terms_view(stack@);
        let next = match t.inner() {
            TermInner::Apply { func, arg } => {
                proof {
                    lemma_terms_view_push(stack@, *arg);
                    lemma_spine_push(func@, sv, arg@);
                }
                stack.push(arg.clone());
                func.clone()
            },
            TermInner::Var { .. } => {
                return Ok((t, stack, step));
            },
            TermInner::Lambda { body, .. } => {
                if stack.len() == 0 {
                    return Ok((t, stack, step));
                }
                proof {
                    lemma_terms_view_pop(stack@);
                }
                let a = stack.pop().unwrap();
                let (b, _) = beta(body, &a);
                proof {
                    let app = TermView::Apply { func: Box::new(tv), arg: Box::new(a@) };
                    assert(one_step(app, b@));
                    lemma_reduces_step(app, b@);
                    lemma_spine_reduces(app, b@, terms_view(stack@));
                    assert(spine(tv, sv) == spine(app, terms_view(stack@)));
                    lemma_reduces_trans(t0, spine(tv, sv), spine(b@, terms_view(stack@)));
                }
                b
            },
        };
        t = next;
        step += 1;
    }
}

} // verus!
