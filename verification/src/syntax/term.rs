use super::expr::{Expr, ExprView};
use crate::text::{decimal, push_char, push_str, usize_to_string};
use std::rc::Rc;
use vstd::prelude::*;

verus! {

/// The mathematical model of a de Bruijn indexed term: the names are kept
/// for display, the indices carry the meaning.
pub enum TermView {
    Var { name: Seq<char>, index: usize },
    Lambda { param: Seq<char>, body: Box<TermView> },
    Apply { func: Box<TermView>, arg: Box<TermView> },
}

/// Term's internal enum that's always wrapped in Rc
#[derive(Debug)]
pub enum TermInner {
    Var { name: String, index: usize },
    Apply { func: Term, arg: Term },
    Lambda { param: String, body: Term },
}

/// The Term struct represents terms in de Bruijn indexed form, wrapped in Rc
/// for efficient cloning.
#[derive(Debug)]
pub struct Term(pub Rc<TermInner>);

pub open spec fn term_view(t: Term) -> TermView
    decreases t,
{
    match *t.0 {
        TermInner::Var { name, index } => TermView::Var { name: name@, index: index },
        TermInner::Lambda { param, body } => TermView::Lambda {
            param: param@,
            body: Box::new(term_view(body)),
        },
        TermInner::Apply { func, arg } => TermView::Apply {
            func: Box::new(term_view(func)),
            arg: Box::new(term_view(arg)),
        },
    }
}

impl View for Term {
    type V = TermView;

    open spec fn view(&self) -> TermView {
        term_view(*self)
    }
}

impl TermView {
    /// Number of nodes of the term.
    pub open spec fn size(self) -> nat
        decreases self,
    {
        match self {
            TermView::Var { .. } => 1,
            TermView::Lambda { body, .. } => 1 + body.size(),
            TermView::Apply { func, arg } => 1 + func.size() + arg.size(),
        }
    }

    /// Two terms are equal up to the names they carry: the indices and the
    /// shape decide.
    pub open spec fn alpha_eq(self, other: TermView) -> bool
        decreases self,
    {
        match (self, other) {
            (TermView::Var { index: i1, .. }, TermView::Var { index: i2, .. }) => i1 == i2,
            (TermView::Lambda { body: b1, .. }, TermView::Lambda { body: b2, .. }) => b1.alpha_eq(
                *b2,
            ),
            (TermView::Apply { func: f1, arg: a1 }, TermView::Apply { func: f2, arg: a2 }) => {
                f1.alpha_eq(*f2) && a1.alpha_eq(*a2)
            },
            _ => false,
        }
    }
}

/// Reflexivity of `alpha_eq`.
pub proof fn lemma_alpha_eq_refl(t: TermView)
    ensures
        t.alpha_eq(t),
    decreases t,
{
    match t {
        TermView::Var { .. } => {},
        TermView::Lambda { body, .. } => lemma_alpha_eq_refl(*body),
        TermView::Apply { func, arg } => {
            lemma_alpha_eq_refl(*func);
            lemma_alpha_eq_refl(*arg);
        },
    }
}

/// Symmetry of `alpha_eq`.
pub proof fn lemma_alpha_eq_symm(a: TermView, b: TermView)
    ensures
        a.alpha_eq(b) == b.alpha_eq(a),
    decreases a,
{
    match (a, b) {
        (TermView::Lambda { body: b1, .. }, TermView::Lambda { body: b2, .. }) => {
            lemma_alpha_eq_symm(*b1, *b2)
        },
        (TermView::Apply { func: f1, arg: a1 }, TermView::Apply { func: f2, arg: a2 }) => {
            lemma_alpha_eq_symm(*f1, *f2);
            lemma_alpha_eq_symm(*a1, *a2);
        },
        _ => {},
    }
}

/// Transitivity of `alpha_eq`.
pub proof fn lemma_alpha_eq_trans(a: TermView, b: TermView, c: TermView)
    requires
        a.alpha_eq(b),
        b.alpha_eq(c),
    ensures
        a.alpha_eq(c),
    decreases a,
{
    match (a, b, c) {
        (
            TermView::Lambda { body: b1, .. },
            TermView::Lambda { body: b2, .. },
            TermView::Lambda { body: b3, .. },
        ) => lemma_alpha_eq_trans(*b1, *b2, *b3),
        (
            TermView::Apply { func: f1, arg: a1 },
            TermView::Apply { func: f2, arg: a2 },
            TermView::Apply { func: f3, arg: a3 },
        ) => {
            lemma_alpha_eq_trans(*f1, *f2, *f3);
            lemma_alpha_eq_trans(*a1, *a2, *a3);
        },
        _ => {},
    }
}

/// `Rc::ptr_eq`: true only when both point to the same allocation, which then
/// holds one and the same value.
#[verifier::external_body]
fn rc_ptr_eq(a: &Rc<TermInner>, b: &Rc<TermInner>) -> (r: bool)
    ensures
        r ==> *a == *b,
{
    Rc::ptr_eq(a, b)
}

impl Term {
    pub fn var(name: &str, index: usize) -> (t: Term)
        ensures
            t@ == (TermView::Var { name: name@, index: index }),
    {
        Term(Rc::new(TermInner::Var { name: name.to_owned(), index }))
    }

    pub fn lambda(param: &str, body: Term) -> (t: Term)
        ensures
            t@ == (TermView::Lambda { param: param@, body: Box::new(body@) }),
    {
        Term(Rc::new(TermInner::Lambda { param: param.to_owned(), body }))
    }

    pub fn apply(func: Term, arg: Term) -> (t: Term)
        ensures
            t@ == (TermView::Apply { func: Box::new(func@), arg: Box::new(arg@) }),
    {
        Term(Rc::new(TermInner::Apply { func, arg }))
    }

    // Helper method to access the inner value
    pub fn inner(&self) -> (r: &TermInner)
        ensures
            *r == *self.0,
    {
        &self.0
    }

    fn alpha_eq_exec(&self, other: &Term) -> (r: bool)
        ensures
            r == self@.alpha_eq(other@),
        decreases self@.size(),
    {
        if rc_ptr_eq(&self.0, &other.0) {
            proof {
                lemma_alpha_eq_refl(self@);
            }
            return true;
        }
        match (self.inner(), other.inner()) {
            (TermInner::Var { name: _, index: i1 }, TermInner::Var { name: _, index: i2 }) => {
                *i1 == *i2
            },
            (TermInner::Lambda { param: _, body: b1 }, TermInner::Lambda { param: _, body: b2 }) => {
                b1.alpha_eq_exec(b2)
            },
            (TermInner::Apply { func: f1, arg: a1 }, TermInner::Apply { func: f2, arg: a2 }) => {
                f1.alpha_eq_exec(f2) && a1.alpha_eq_exec(a2)
            },
            _ => false,
        }
    }
}

impl Clone for Term {
    fn clone(&self) -> (t: Self)
        ensures
            t == *self,
    {
        Term(self.0.clone())
    }
}

impl PartialEq for Term {
    fn eq(&self, other: &Self) -> (r: bool) {
        self.alpha_eq_exec(other)
    }
}

impl vstd::std_specs::cmp::PartialEqSpecImpl for Term {
    open spec fn obeys_eq_spec() -> bool {
        true
    }

    open spec fn eq_spec(&self, other: &Term) -> bool {
        self@.alpha_eq(other@)
    }
}

impl TermView {
    /// Every variable refers to a binder of the term or to one of `n`
    /// binders around it.
    pub open spec fn scoped(self, n: nat) -> bool
        decreases self,
    {
        match self {
            TermView::Var { index, .. } => index < n,
            TermView::Lambda { body, .. } => body.scoped(n + 1),
            TermView::Apply { func, arg } => func.scoped(n) && arg.scoped(n),
        }
    }

    /// The named expression the term stands for: the indices are dropped,
    /// the names kept.
    pub open spec fn erase(self) -> ExprView
        decreases self,
    {
        match self {
            TermView::Var { name, .. } => ExprView::Var(name),
            TermView::Lambda { param, body } => ExprView::Lambda {
                param,
                body: Box::new(body.erase()),
            },
            TermView::Apply { func, arg } => ExprView::Apply {
                func: Box::new(func.erase()),
                arg: Box::new(arg.erase()),
            },
        }
    }

    /// The notation with indices: `name#index`, `\param. body`, application
    /// by juxtaposition with parentheses around a function that is a lambda
    /// and around an argument that is not a variable.
    pub open spec fn display(self) -> Seq<char>
        decreases self,
    {
        match self {
            TermView::Var { name, index } => name + seq!['#'] + decimal(index as nat),
            TermView::Lambda { param, body } => seq!['\\'] + param + seq!['.', ' '] + body.display(),
            TermView::Apply { func, arg } => {
                let f = match *func {
                    TermView::Var { .. } => func.display(),
                    TermView::Apply { .. } => func.display(),
                    _ => seq!['('] + func.display() + seq![')'],
                };
                let a = match *arg {
                    TermView::Var { .. } => arg.display(),
                    _ => seq!['('] + arg.display() + seq![')'],
                };
                f + seq![' '] + a
            },
        }
    }
}

/// The named expression a term stands for, made of the term's own names.
pub open spec fn term_to_expr(t: Term) -> Expr
    decreases t,
{
    match *t.0 {
        TermInner::Var { name, .. } => Expr::Var(name),
        TermInner::Lambda { param, body } => Expr::Lambda {
            param,
            body: Box::new(term_to_expr(body)),
        },
        TermInner::Apply { func, arg } => Expr::Apply {
            func: Box::new(term_to_expr(func)),
            arg: Box::new(term_to_expr(arg)),
        },
    }
}

/// The expression made by `term_to_expr` is the erasure of the term.
pub proof fn lemma_term_to_expr_view(t: Term)
    ensures
        term_to_expr(t)@ == t@.erase(),
    decreases t,
{
    match *t.0 {
        TermInner::Var { .. } => {},
        TermInner::Lambda { param, body } => {
            lemma_term_to_expr_view(body);
        },
        TermInner::Apply { func, arg } => {
            lemma_term_to_expr_view(func);
            lemma_term_to_expr_view(arg);
        },
    }
}

fn term_to_expr_exec(t: &Term) -> (e: Expr)
    ensures
        e == term_to_expr(*t),
    decreases t,
{
    match t.inner() {
        TermInner::Var { name, .. } => Expr::Var(name.clone()),
        TermInner::Lambda { param, body } => Expr::Lambda {
            param: param.clone(),
            body: Box::new(term_to_expr_exec(body)),
        },
        TermInner::Apply { func, arg } => Expr::Apply {
            func: Box::new(term_to_expr_exec(func)),
            arg: Box::new(term_to_expr_exec(arg)),
        },
    }
}

impl From<Term> for Expr {
    fn from(term: Term) -> (e: Expr) {
        term_to_expr_exec(&term)
    }
}

impl vstd::std_specs::convert::FromSpecImpl<Term> for Expr {
    open spec fn obeys_from_spec() -> bool {
        true
    }

    open spec fn from_spec(term: Term) -> Expr {
        term_to_expr(term)
    }
}

impl Term {
    /// The term in the notation with indices.
    pub fn to_display_string(&self) -> (s: String)
        ensures
            s@ == self@.display(),
        decreases self,
    {
        match self.inner() {
            TermInner::Var { name, index } => {
                let mut s = name.clone();
                push_char(&mut s, '#');
                let d = usize_to_string(*index);
                push_str(&mut s, d.as_str());
                proof {
                    assert(s@ =~= name@ + seq!['#'] + decimal(*index as nat));
                }
                s
            },
            TermInner::Lambda { param, body } => {
                let mut s = String::new();
                push_char(&mut s, '\\');
                push_str(&mut s, param.as_str());
                push_char(&mut s, '.');
                push_char(&mut s, ' ');
                let b = body.to_display_string();
                push_str(&mut s, b.as_str());
                proof {
                    assert(s@ =~= seq!['\\'] + param@ + seq!['.', ' '] + body@.display());
                }
                s
            },
            TermInner::Apply { func, arg } => {
                let mut s = String::new();
                match func.inner() {
                    TermInner::Var { .. } | TermInner::Apply { .. } => {
                        let fs = func.to_display_string();
                        push_str(&mut s, fs.as_str());
                    },
                    _ => {
                        push_char(&mut s, '(');
                        let fs = func.to_display_string();
                        push_str(&mut s, fs.as_str());
                        push_char(&mut s, ')');
                    },
                }
                push_char(&mut s, ' ');
                match arg.inner() {
                    TermInner::Var { .. } => {
                        let a = arg.to_display_string();
                        push_str(&mut s, a.as_str());
                    },
                    _ => {
                        push_char(&mut s, '(');
                        let a = arg.to_display_string();
                        push_str(&mut s, a.as_str());
                        push_char(&mut s, ')');
                    },
                }
                proof {
                    let f = match func@ {
                        TermView::Var { .. } => func@.display(),
                        TermView::Apply { .. } => func@.display(),
                        _ => seq!['('] + func@.display() + seq![')'],
                    };
                    let a = match arg@ {
                        TermView::Var { .. } => arg@.display(),
                        _ => seq!['('] + arg@.display() + seq![')'],
                    };
                    assert(s@ =~= f + seq![' '] + a);
                }
                s
            },
        }
    }
}

} // verus!
