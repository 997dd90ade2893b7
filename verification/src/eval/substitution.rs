use super::common::{beta, beta_spec, eval_view, EvalError, EvalErrorView};
use super::reduction::{
    is_neutral, is_normal, lemma_reduces_app_arg, lemma_reduces_app_func, lemma_reduces_lambda,
    lemma_neutral_normal, lemma_reduces_refl, lemma_reduces_step, lemma_reduces_trans, one_step, reduces,
};
use crate::syntax::{Term, TermInner, TermView};
use vstd::prelude::*;

verus! {

/// The number of beta steps after which evaluation gives up.
pub const STEP_LIMIT: usize = 1_000_000;

/// The number of consecutive copying beta steps after which evaluation is
/// taken to diverge.
pub const NON_REDUCING_LIMIT: usize = 1000;

/// The model of a run's result: the term by its view, with the step count
/// and the count of copying steps in a row.
pub open spec fn run_view(r: Result<(Term, usize, usize), EvalError>) -> Result<
    (TermView, int, int),
    EvalErrorView,
> {
    match r {
        Ok((t, s, n)) => Ok((t@, s as int, n as int)),
        Err(e) => Err(e@),
    }
}

/// Normal-order reduction of `t` until a lambda or a variable heads it,
/// counting beta steps from `step` and copying steps in a row from `count`:
/// the head is reduced first; a lambda there is applied to the argument,
/// anything else has its argument normalised. It fails once `step` reaches
/// `STEP_LIMIT`, or once `count` exceeds `NON_REDUCING_LIMIT`.
pub open spec fn head_run(t: TermView, step: int, count: int) -> Result<(TermView, int, int), EvalErrorView>
    decreases STEP_LIMIT - step, t.size(), 0nat,
{
    if step >= STEP_LIMIT {
        Err(EvalErrorView::StepLimitExceeded)
    } else if count > NON_REDUCING_LIMIT {
        Err(EvalErrorView::Divergence)
    } else {
        match t {
            TermView::Apply { func, arg } => match head_run(*func, step, count) {
                Ok((f, s, n)) => if s < step || s >= STEP_LIMIT {
                    Err(EvalErrorView::StepLimitExceeded)
                } else {
                    match f {
                        TermView::Lambda { body, .. } => {
                            let (b, copied) = beta_spec(*body, *arg);
                            head_run(b, s + 1, if copied { n + 1 } else { 0 })
                        },
                        _ => match normal_run(*arg, s, n) {
                            Ok((a, s2, n2)) => Ok((TermView::Apply { func: Box::new(f), arg: Box::new(a) }, s2, n2)),
                            Err(e) => Err(e),
                        },
                    }
                },
                Err(e) => Err(e),
            },
            _ => Ok((t, step, count)),
        }
    }
}

/// Normal-order reduction of `t` to normal form, counting as `head_run`
/// does; under a lambda the body is normalised.
pub open spec fn normal_run(t: TermView, step: int, count: int) -> Result<(TermView, int, int), EvalErrorView>
    decreases STEP_LIMIT - step, t.size(), 1nat,
{
    if step >= STEP_LIMIT {
        Err(EvalErrorView::StepLimitExceeded)
    } else if count > NON_REDUCING_LIMIT {
        Err(EvalErrorView::Divergence)
    } else {
        match t {
            TermView::Apply { func, arg } => match head_run(*func, step, count) {
                Ok((f, s, n)) => if s < step || s >= STEP_LIMIT {
                    Err(EvalErrorView::StepLimitExceeded)
                } else {
                    match f {
                        TermView::Lambda { body, .. } => {
                            let (b, copied) = beta_spec(*body, *arg);
                            normal_run(b, s + 1, if copied { n + 1 } else { 0 })
                        },
                        _ => match normal_run(*arg, s, n) {
                            Ok((a, s2, n2)) => Ok((TermView::Apply { func: Box::new(f), arg: Box::new(a) }, s2, n2)),
                            Err(e) => Err(e),
                        },
                    }
                },
                Err(e) => Err(e),
            },
            TermView::Lambda { param, body } => match normal_run(*body, step, count) {
                Ok((b, s, n)) => Ok((TermView::Lambda { param, body: Box::new(b) }, s, n)),
                Err(e) => Err(e),
            },
            TermView::Var { .. } => Ok((t, step, count)),
        }
    }
}

/// What evaluation by substitution gives for `t`.
pub open spec fn substitution_eval(t: TermView) -> Result<TermView, EvalErrorView> {
    match normal_run(t, 0, 0) {
        Ok((n, _, _)) => Ok(n),
        Err(e) => Err(e),
    }
}

/// What the head normalisation of `term` may return.
pub open spec fn head_normal_result(
    term: TermView,
    step: usize,
    non_reducing_count: usize,
    r: Result<(Term, usize, usize), EvalError>,
) -> bool {
    &&& r matches Ok((t, s, n)) ==> {
        &&& reduces(term, t@)
        &&& (t@ is Lambda || is_neutral(t@))
        &&& step <= s < STEP_LIMIT
        &&& n <= NON_REDUCING_LIMIT
    }
    &&& r matches Err(e) ==> (e is StepLimitExceeded || e is Divergence)
    &&& (is_neutral(term) && step < STEP_LIMIT && non_reducing_count <= NON_REDUCING_LIMIT) ==> (r
        matches Ok((t, s, n)) && t@ == term && s == step && n == non_reducing_count)
}

/// What the normalisation of `term` may return.
pub open spec fn normal_result(
    term: TermView,
    step: usize,
    non_reducing_count: usize,
    r: Result<(Term, usize, usize), EvalError>,
) -> bool {
    &&& r matches Ok((t, s, n)) ==> {
        &&& reduces(term, t@)
        &&& is_normal(t@)
        &&& step <= s < STEP_LIMIT
        &&& n <= NON_REDUCING_LIMIT
    }
    &&& r matches Err(e) ==> (e is StepLimitExceeded || e is Divergence)
    &&& (is_normal(term) && step < STEP_LIMIT && non_reducing_count <= NON_REDUCING_LIMIT) ==> (r
        matches Ok((t, s, n)) && t@ == term && s == step && n == non_reducing_count)
}

/// Evaluate the term to normal form
pub fn eval(term: Term) -> (r: Result<Term, EvalError>)
    ensures
        r matches Ok(t) ==> is_normal(t@) && reduces(term@, t@),
        r matches Err(e) ==> (e is StepLimitExceeded || e is Divergence),
        is_normal(term@) ==> (r matches Ok(t) && t@ == term@),
        eval_view(r) == substitution_eval(term@),
{
    match eval_inner(term, 0, 0) {
        Ok((t, _, _)) => Ok(t),
        Err(e) => Err(e),
    }
}

/// Evaluate the term until a lambda is at the outermost position, returning the term, step count, and non-reducing count
fn eval_head_normal(start: Term, start_step: usize, start_count: usize) -> (r: Result<
    (Term, usize, usize),
    EvalError,
>)
    ensures
        head_normal_result(start@, start_step, start_count, r),
        run_view(r) == head_run(start@, start_step as int, start_count as int),
    decreases STEP_LIMIT - start_step, start@.size(), 0nat,
{
    let ghost entry = start@;
    let mut term = start;
    let mut step = start_step;
    let mut non_reducing_count = start_count;
    let ghost step0 = step;
    let ghost nrc0 = non_reducing_count;
    proof {
        lemma_reduces_refl(entry);
    }
    loop
        invariant
            entry == start@,
            step0 == start_step,
            nrc0 == start_count,
            reduces(entry, term@),
            step0 <= step,
            step == step0 ==> term@ == entry && non_reducing_count == nrc0,
            (is_neutral(entry) && step0 < STEP_LIMIT && nrc0 <= NON_REDUCING_LIMIT) ==> step == step0,
            head_run(entry, step0 as int, nrc0 as int) == head_run(term@, step as int, non_reducing_count as int),
        decreases STEP_LIMIT - step,
    {
        if step >= STEP_LIMIT {
            return Err(EvalError::StepLimitExceeded);
        }
        if non_reducing_count > NON_REDUCING_LIMIT {
            return Err(EvalError::Divergence);
        }
        let ghost cur = term@;
        match term.inner() {
            TermInner::Apply { func, arg } => {
                proof {
                    assert(cur == TermView::Apply { func: Box::new(func@), arg: Box::new(arg@) });
                    if is_normal(cur) {
                        assert(is_neutral(cur));
                        lemma_neutral_normal(func@);
                    }
                }
                let (func, next_step, next_non_reducing_count) = match eval_head_normal(
                    func.clone(),
                    step,
                    non_reducing_count,
                ) {
                    Ok(v) => v,
                    Err(e) => return Err(e),
                };
                proof {
                    lemma_reduces_app_func(*cur->Apply_func, func@, arg@);
                    lemma_reduces_trans(entry, cur, TermView::Apply { func: Box::new(func@), arg: Box::new(arg@) });
                }
                match func.inner() {
                    TermInner::Lambda { body, .. } => {
                        let (beta_result, non_reducing) = beta(body, arg);
                        proof {
                            let app = TermView::Apply { func: Box::new(func@), arg: Box::new(arg@) };
                            assert(one_step(app, beta_spec(body@, arg@).0));
                            lemma_reduces_step(app, beta_result@);
                            lemma_reduces_trans(entry, app, beta_result@);
                        }
                        term = beta_result;
                        step = next_step + 1;
                        non_reducing_count = if non_reducing {
                            next_non_reducing_count + 1
                        } else {
                            0
                        };
                    },
                    _ => {
                        let (reduced_arg, next_step, next_non_reducing_count) = match eval_inner(
                            arg.clone(),
                            next_step,
                            next_non_reducing_count,
                        ) {
                            Ok(v) => v,
                            Err(e) => return Err(e),
                        };
                        let result = Term::apply(func, reduced_arg);
                        proof {
                            lemma_reduces_app_arg(func@, arg@, reduced_arg@);
                            lemma_reduces_trans(
                                entry,
                                TermView::Apply { func: Box::new(func@), arg: Box::new(arg@) },
                                result@,
                            );
                        }
                        return Ok((result, next_step, next_non_reducing_count));
                    },
                }
            },
            TermInner::Lambda { .. } => {
                return Ok((term, step, non_reducing_count));
            },
            TermInner::Var { .. } => return Ok((term, step, non_reducing_count)),
        }
    }
}

/// Evaluate the term to normal form, returning the final term, step count, and non-reducing count
fn eval_inner(start: Term, start_step: usize, start_count: usize) -> (r: Result<
    (Term, usize, usize),
    EvalError,
>)
    ensures
        normal_result(start@, start_step, start_count, r),
        run_view(r) == normal_run(start@, start_step as int, start_count as int),
    decreases STEP_LIMIT - start_step, start@.size(), 1nat,
{
    let ghost entry = start@;
    let mut term = start;
    let mut step = start_step;
    let mut non_reducing_count = start_count;
    let ghost step0 = step;
    let ghost nrc0 = non_reducing_count;
    proof {
        lemma_reduces_refl(entry);
    }
    loop
        invariant
            entry == start@,
            step0 == start_step,
            nrc0 == start_count,
            reduces(entry, term@),
            step0 <= step,
            step == step0 ==> term@ == entry && non_reducing_count == nrc0,
            (is_normal(entry) && step0 < STEP_LIMIT && nrc0 <= NON_REDUCING_LIMIT) ==> step == step0,
            normal_run(entry, step0 as int, nrc0 as int) == normal_run(term@, step as int, non_reducing_count as int),
        decreases STEP_LIMIT - step,
    {
        if step >= STEP_LIMIT {
            return Err(EvalError::StepLimitExceeded);
        }
        if non_reducing_count > NON_REDUCING_LIMIT {
            return Err(EvalError::Divergence);
        }
        let ghost cur = term@;
        match term.inner() {
            TermInner::Apply { func, arg } => {
                proof {
                    assert(cur == TermView::Apply { func: Box::new(func@), arg: Box::new(arg@) });
                    if is_normal(cur) {
                        assert(is_neutral(cur));
                        lemma_neutral_normal(func@);
                    }
                }
                let (func, next_step, next_non_reducing_count) = match eval_head_normal(
                    func.clone(),
                    step,
                    non_reducing_count,
                ) {
                    Ok(v) => v,
                    Err(e) => return Err(e),
                };
                proof {
                    lemma_reduces_app_func(*cur->Apply_func, func@, arg@);
                    lemma_reduces_trans(entry, cur, TermView::Apply { func: Box::new(func@), arg: Box::new(arg@) });
                }
                match func.inner() {
                    TermInner::Lambda { body, .. } => {
                        let (beta_result, non_reducing) = beta(body, arg);
                        proof {
                            let app = TermView::Apply { func: Box::new(func@), arg: Box::new(arg@) };
                            assert(one_step(app, beta_spec(body@, arg@).0));
                            lemma_reduces_step(app, beta_result@);
                            lemma_reduces_trans(entry, app, beta_result@);
                        }
                        term = beta_result;
                        step = next_step + 1;
                        non_reducing_count = if non_reducing {
                            next_non_reducing_count + 1
                        } else {
                            0
                        };
                    },
                    _ => {
                        let (reduced_arg, next_step, next_non_reducing_count) = match eval_inner(
                            arg.clone(),
                            next_step,
                            next_non_reducing_count,
                        ) {
                            Ok(v) => v,
                            Err(e) => return Err(e),
                        };
                        let result = Term::apply(func, reduced_arg);
                        proof {
                            lemma_reduces_app_arg(func@, arg@, reduced_arg@);
                            lemma_reduces_trans(
                                entry,
                                TermView::Apply { func: Box::new(func@), arg: Box::new(arg@) },
                                result@,
                            );
                            assert(is_neutral(result@));
                            lemma_neutral_normal(result@);
                        }
                        return Ok((result, next_step, next_non_reducing_count));
                    },
                }
            },
            TermInner::Lambda { param, body } => {
                assert(cur == TermView::Lambda { param: param@, body: Box::new(body@) });
                let (new_body, next_step, next_non_reducing_count) = match eval_inner(
                    body.clone(),
                    step,
                    non_reducing_count,
                ) {
                    Ok(v) => v,
                    Err(e) => return Err(e),
                };
                let result = Term(std::rc::Rc::new(TermInner::Lambda { param: param.clone(), body: new_body }));
                proof {
                    lemma_reduces_lambda(param@, body@, new_body@);
                    lemma_reduces_trans(entry, cur, result@);
                }
                return Ok((result, next_step, next_non_reducing_count));
            },
            TermInner::Var { .. } => {
                assert(is_neutral(term@));
                proof {
                    lemma_neutral_normal(term@);
                }
                return Ok((term, step, non_reducing_count));
            },
        }
    }
}

} // verus!
