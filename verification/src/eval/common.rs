use crate::import::{ImportError, ImportErrorView};
use crate::syntax::{Expr, ExprView, Term, TermInner, TermView};
use crate::text::push_str;
use vstd::prelude::*;

verus! {

/// Why a program could not be run to a result.
#[derive(Debug)]
pub enum EvalError {
    UndefinedVariable { name: String },
    StepLimitExceeded,
    Divergence,
    Import(ImportError),
}

pub enum EvalErrorView {
    UndefinedVariable(Seq<char>),
    StepLimitExceeded,
    Divergence,
    Import(ImportErrorView),
}

impl View for EvalError {
    type V = EvalErrorView;

    open spec fn view(&self) -> EvalErrorView {
        match self {
            EvalError::UndefinedVariable { name } => EvalErrorView::UndefinedVariable(name@),
            EvalError::StepLimitExceeded => EvalErrorView::StepLimitExceeded,
            EvalError::Divergence => EvalErrorView::Divergence,
            EvalError::Import(e) => EvalErrorView::Import(e@),
        }
    }
}

impl EvalErrorView {
    pub open spec fn display(self) -> Seq<char> {
        match self {
            EvalErrorView::UndefinedVariable(name) => "Undefined variable "@ + name,
            EvalErrorView::StepLimitExceeded => "Maximum evaluation steps exceeded"@,
            EvalErrorView::Divergence => "Evaluation likely diverged"@,
            EvalErrorView::Import(e) => e.display(),
        }
    }
}

impl EvalError {
    /// The error message.
    pub fn to_display_string(&self) -> (s: String)
        ensures
            s@ == self@.display(),
    {
        match self {
            EvalError::UndefinedVariable { name } => {
                let mut s = "Undefined variable ".to_owned();
                push_str(&mut s, name.as_str());
                s
            },
            EvalError::StepLimitExceeded => "Maximum evaluation steps exceeded".to_owned(),
            EvalError::Divergence => "Evaluation likely diverged".to_owned(),
            EvalError::Import(e) => e.to_display_string(),
        }
    }
}

impl From<ImportError> for EvalError {
    fn from(e: ImportError) -> (r: EvalError) {
        EvalError::Import(e)
    }
}

impl vstd::std_specs::convert::FromSpecImpl<ImportError> for EvalError {
    open spec fn obeys_from_spec() -> bool {
        true
    }

    open spec fn from_spec(e: ImportError) -> EvalError {
        EvalError::Import(e)
    }
}

/// The names of a scope, innermost last.
/// The model of an evaluation's result.
pub open spec fn eval_view(r: Result<Term, EvalError>) -> Result<TermView, EvalErrorView> {
    match r {
        Ok(t) => Ok(t@),
        Err(e) => Err(e@),
    }
}

pub open spec fn names_of(v: Seq<String>) -> Seq<Seq<char>> {
    v.map_values(|s: String| s@)
}

/// How many binders lie between the innermost binder of `name` in `env`
/// and the end of `env`.
pub open spec fn lookup(env: Seq<Seq<char>>, name: Seq<char>) -> Option<nat>
    decreases env.len(),
{
    if env.len() == 0 {
        None
    } else if env.last() == name {
        Some(0)
    } else {
        match lookup(env.drop_last(), name) {
            Some(i) => Some(i + 1),
            None => None,
        }
    }
}

/// Conversion of a named expression to de Bruijn form in scope `env`:
/// each variable becomes the distance to its innermost binder; a variable
/// with no binder is an error that carries its name (the leftmost such).
pub open spec fn de_bruijn_spec(e: ExprView, env: Seq<Seq<char>>) -> Result<TermView, Seq<char>>
    decreases e,
{
    match e {
        ExprView::Var(name) => match lookup(env, name) {
            Some(i) => Ok(TermView::Var { name, index: i as usize }),
            None => Err(name),
        },
        ExprView::Lambda { param, body } => match de_bruijn_spec(*body, env.push(param)) {
            Ok(b) => Ok(TermView::Lambda { param, body: Box::new(b) }),
            Err(n) => Err(n),
        },
        ExprView::Apply { func, arg } => match de_bruijn_spec(*func, env) {
            Ok(f) => match de_bruijn_spec(*arg, env) {
                Ok(a) => Ok(TermView::Apply { func: Box::new(f), arg: Box::new(a) }),
                Err(n) => Err(n),
            },
            Err(n) => Err(n),
        },
    }
}

/// The binders left in the scope when the conversion stops at an undefined
/// variable: those of the lambdas around it.
pub open spec fn de_bruijn_error_scope(e: ExprView, env: Seq<Seq<char>>) -> Seq<Seq<char>>
    decreases e,
{
    match e {
        ExprView::Var(_) => seq![],
        ExprView::Lambda { param, body } => seq![param] + de_bruijn_error_scope(
            *body,
            env.push(param),
        ),
        ExprView::Apply { func, arg } => if de_bruijn_spec(*func, env) is Err {
            de_bruijn_error_scope(*func, env)
        } else {
            de_bruijn_error_scope(*arg, env)
        },
    }
}

fn find_binder(env: &Vec<String>, name: &String) -> (r: Option<usize>)
    ensures
        r == (match lookup(names_of(env@), name@) {
            Some(i) => Some(i as usize),
            None => None,
        }),
        r matches Some(i) ==> i < env@.len(),
{
    let len = env.len();
    let mut i: usize = len;
    assert(env@.take(len as int) =~= env@);
    while i > 0
        invariant
            0 <= i <= len == env@.len(),
            lookup(names_of(env@), name@) == (match lookup(names_of(env@.take(i as int)), name@) {
                Some(k) => Some((k + (len - i)) as nat),
                None => None,
            }),
        decreases i,
    {
        let ghost pre = names_of(env@.take(i as int));
        assert(pre.drop_last() =~= names_of(env@.take(i - 1)));
        assert(pre.last() == env@[i - 1]@);
        if env[i - 1] == *name {
            return Some(len - i);
        }
        i = i - 1;
    }
    assert(names_of(env@.take(0)) =~= Seq::<Seq<char>>::empty());
    None
}

/// Converts a named expression to de Bruijn form; `env` holds the names in
/// scope, innermost last.
pub fn de_bruijn(ast: &Expr, env: &mut Vec<String>) -> (r: Result<Term, EvalError>)
    ensures
        r is Ok <==> de_bruijn_spec(ast@, names_of(old(env)@)) is Ok,
        r matches Ok(t) ==> de_bruijn_spec(ast@, names_of(old(env)@)) == Ok::<TermView, Seq<char>>(t@),
        r matches Err(e) ==> e matches EvalError::UndefinedVariable { name }
            && de_bruijn_spec(ast@, names_of(old(env)@)) == Err::<TermView, Seq<char>>(name@),
        r is Ok ==> final(env)@ == old(env)@,
        r is Err ==> names_of(final(env)@) == names_of(old(env)@) + de_bruijn_error_scope(
            ast@,
            names_of(old(env)@),
        ),
    decreases ast,
{
    let ghost env0 = env@;
    match ast {
        Expr::Var(name) => {
            match find_binder(env, name) {
                Some(pos) => Ok(Term(std::rc::Rc::new(TermInner::Var { name: name.clone(), index: pos }))),
                None => {
                    proof {
                        assert(names_of(env@) + seq![] =~= names_of(env@));
                    }
                    Err(EvalError::UndefinedVariable { name: name.clone() })
                },
            }
        },
        Expr::Lambda { param, body } => {
            env.push(param.clone());
            proof {
                assert(names_of(env@) =~= names_of(env0).push(param@));
            }
            let body_term = match de_bruijn(body, env) {
                Ok(t) => t,
                Err(e) => {
                    proof {
                        assert(names_of(env@) =~= names_of(env0) + (seq![param@]
                            + de_bruijn_error_scope(body@, names_of(env0).push(param@))));
                    }
                    return Err(e);
                },
            };
            env.pop();
            proof {
                assert(env@ =~= env0);
            }
            Ok(Term(std::rc::Rc::new(TermInner::Lambda { param: param.clone(), body: body_term })))
        },
        Expr::Apply { func, arg } => {
            let func_term = de_bruijn(func, env)?;
            let arg_term = de_bruijn(arg, env)?;
            Ok(Term(std::rc::Rc::new(TermInner::Apply { func: func_term, arg: arg_term })))
        },
    }
}

/// `cutoff + 1` in the machine's arithmetic.
pub open spec fn next_index(n: usize) -> usize {
    if n == usize::MAX {
        0
    } else {
        (n + 1) as usize
    }
}

/// `i + by` in the machine's arithmetic.
pub open spec fn shift_index(i: usize, by: isize) -> usize {
    if i + by > usize::MAX {
        (i + by - (usize::MAX + 1)) as usize
    } else if i + by < 0 {
        (i + by + (usize::MAX + 1)) as usize
    } else {
        (i + by) as usize
    }
}

/// Adds `by` to every variable index that is at least `cutoff` (counted
/// from the binders met on the way down).
pub open spec fn shift_spec(t: TermView, by: isize, cutoff: usize) -> TermView
    decreases t,
{
    match t {
        TermView::Var { name, index } => if index >= cutoff {
            TermView::Var { name, index: shift_index(index, by) }
        } else {
            t
        },
        TermView::Lambda { param, body } => TermView::Lambda {
            param,
            body: Box::new(shift_spec(*body, by, next_index(cutoff))),
        },
        TermView::Apply { func, arg } => TermView::Apply {
            func: Box::new(shift_spec(*func, by, cutoff)),
            arg: Box::new(shift_spec(*arg, by, cutoff)),
        },
    }
}

/// Replaces the variable `index` (counted from the binders met on the way
/// down) by `value` shifted over those binders; also counts the
/// replacements.
pub open spec fn subst_spec(t: TermView, index: usize, value: TermView) -> (TermView, nat)
    decreases t,
{
    match t {
        TermView::Var { index: vi, .. } => if vi == index {
            (shift_spec(value, index as isize, 0), 1)
        } else {
            (t, 0)
        },
        TermView::Lambda { param, body } => {
            let (b, c) = subst_spec(*body, next_index(index), value);
            (TermView::Lambda { param, body: Box::new(b) }, c)
        },
        TermView::Apply { func, arg } => {
            let (f, cf) = subst_spec(*func, index, value);
            let (a, ca) = subst_spec(*arg, index, value);
            (TermView::Apply { func: Box::new(f), arg: Box::new(a) }, cf + ca)
        },
    }
}

/// One beta reduction of `(\. body) arg`, and whether the argument was
/// copied more than once.
pub open spec fn beta_spec(body: TermView, arg: TermView) -> (TermView, bool) {
    let shifted = shift_spec(arg, 1isize, 0);
    let (substituted, count) = subst_spec(body, 0, shifted);
    (shift_spec(substituted, -1isize, 0), count > 1)
}

pub fn shift(term: &Term, by: isize, cutoff: usize) -> (r: Term)
    ensures
        r@ == shift_spec(term@, by, cutoff),
    decreases term@.size(),
{
    match term.inner() {
        TermInner::Var { name, index } => {
            if *index >= cutoff {
                let new_index = index.wrapping_add_signed(by);
                Term(std::rc::Rc::new(TermInner::Var { name: name.clone(), index: new_index }))
            } else {
                term.clone()
            }
        },
        TermInner::Lambda { param, body } => {
            let new_body = shift(body, by, cutoff.wrapping_add(1));
            Term(std::rc::Rc::new(TermInner::Lambda { param: param.clone(), body: new_body }))
        },
        TermInner::Apply { func, arg } => {
            let new_func = shift(func, by, cutoff);
            let new_arg = shift(arg, by, cutoff);
            Term(std::rc::Rc::new(TermInner::Apply { func: new_func, arg: new_arg }))
        },
    }
}

pub fn subst(term: &Term, index: usize, value: &Term) -> (r: (Term, usize))
    ensures
        r.0@ == subst_spec(term@, index, value@).0,
        r.1 == (if subst_spec(term@, index, value@).1 > usize::MAX {
            usize::MAX as nat
        } else {
            subst_spec(term@, index, value@).1
        }),
    decreases term@.size(),
{
    match term.inner() {
        TermInner::Var { name: _, index: var_index } => {
            if *var_index == index {
                (shift(value, index as isize, 0), 1)
            } else {
                (term.clone(), 0)
            }
        },
        TermInner::Lambda { param, body } => {
            let (new_body, sub_count) = subst(body, index.wrapping_add(1), value);
            (Term(std::rc::Rc::new(TermInner::Lambda { param: param.clone(), body: new_body })), sub_count)
        },
        TermInner::Apply { func, arg } => {
            let (new_func, func_sub_count) = subst(func, index, value);
            let (new_arg, arg_sub_count) = subst(arg, index, value);
            (
                Term(std::rc::Rc::new(TermInner::Apply { func: new_func, arg: new_arg })),
                func_sub_count.saturating_add(arg_sub_count),
            )
        },
    }
}

/// Beta reduction of `(\. body) arg`; the flag tells whether the argument
/// was copied more than once.
pub fn beta(body: &Term, arg: &Term) -> (r: (Term, bool))
    ensures
        r.0@ == beta_spec(body@, arg@).0,
        r.1 == beta_spec(body@, arg@).1,
{
    let shifted_arg = shift(arg, 1, 0);
    let (substituted, sub_count) = subst(body, 0, &shifted_arg);
    (shift(&substituted, -1, 0), sub_count > 1)
}

} // verus!
