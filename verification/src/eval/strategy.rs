use super::common::{eval_view, EvalError, EvalErrorView};
use super::kn::kn_eval;
use super::krivine::krivine_eval;
use super::reduction::{is_normal, reduces};
use super::substitution::substitution_eval;
use super::{kn, krivine, substitution};
use crate::syntax::{Term, TermView};
use vstd::prelude::*;

verus! {

/// The evaluators: naive substitution, the Krivine machine, and the
/// full-reducing KN machine (the default).
#[derive(Clone, Copy, PartialEq, Eq, Structural, Debug)]
pub enum EvalStrategy {
    Substitution,
    Krivine,
    Kn,
}

/// What every evaluator promises of a result: a normal form of the term,
/// one that it reduces to.
pub open spec fn evaluated(strategy: EvalStrategy, t: TermView, n: TermView) -> bool {
    &&& is_normal(n)
    &&& reduces(t, n)
}

/// The errors each evaluator can end with on `t`: running out of steps,
/// apparent divergence for the substitution evaluator, and for the KN
/// machine an unbound variable when `t` has one.
pub open spec fn eval_failure(strategy: EvalStrategy, t: TermView, e: EvalError) -> bool {
    match strategy {
        EvalStrategy::Substitution => e is StepLimitExceeded || e is Divergence,
        EvalStrategy::Krivine => e is StepLimitExceeded,
        EvalStrategy::Kn => e is StepLimitExceeded || (e is UndefinedVariable && !t.scoped(0)),
    }
}

/// What an evaluator gives for `t`: the run of its machine, step by step.
pub open spec fn strategy_eval(strategy: EvalStrategy, t: TermView) -> Result<TermView, EvalErrorView> {
    match strategy {
        EvalStrategy::Substitution => substitution_eval(t),
        EvalStrategy::Krivine => krivine_eval(t),
        EvalStrategy::Kn => kn_eval(t),
    }
}

impl EvalStrategy {
    /// Evaluates `term` with this strategy.
    pub fn run(self, term: Term) -> (r: Result<Term, EvalError>)
        ensures
            r matches Ok(n) ==> evaluated(self, term@, n@),
            r matches Err(e) ==> eval_failure(self, term@, e),
            eval_view(r) == strategy_eval(self, term@),
    {
        match self {
            EvalStrategy::Substitution => substitution::eval(term),
            EvalStrategy::Krivine => krivine::eval(term),
            EvalStrategy::Kn => kn::eval(term),
        }
    }
}

} // verus!
