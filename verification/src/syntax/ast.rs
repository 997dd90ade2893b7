use vstd::prelude::*;

verus! {

/// The mathematical model of a parsed program.
pub enum AstView {
    Var(Seq<char>),
    Nat(nat),
    Boolean(bool),
    Lambda { param: Seq<char>, body: Box<AstView> },
    Apply { func: Box<AstView>, arg: Box<AstView> },
    Let { name: Seq<char>, value: Box<AstView>, body: Box<AstView> },
    Letrec { name: Seq<char>, value: Box<AstView>, body: Box<AstView> },
    Import { module: Seq<char>, name: Seq<char>, body: Box<AstView> },
}

#[derive(Debug)]
pub enum Ast {
    Var(String),
    Nat(usize),
    Boolean(bool),
    Lambda { param: String, body: Box<Ast> },
    Apply { func: Box<Ast>, arg: Box<Ast> },
    Let { name: String, value: Box<Ast>, body: Box<Ast> },
    Letrec { name: String, value: Box<Ast>, body: Box<Ast> },
    Import { module: String, name: String, body: Box<Ast> },
}

pub open spec fn ast_view(a: Ast) -> AstView
    decreases a,
{
    match a {
        Ast::Var(name) => AstView::Var(name@),
        Ast::Nat(n) => AstView::Nat(n as nat),
        Ast::Boolean(b) => AstView::Boolean(b),
        Ast::Lambda { param, body } => AstView::Lambda { param: param@, body: Box::new(ast_view(*body)) },
        Ast::Apply { func, arg } => AstView::Apply {
            func: Box::new(ast_view(*func)),
            arg: Box::new(ast_view(*arg)),
        },
        Ast::Let { name, value, body } => AstView::Let {
            name: name@,
            value: Box::new(ast_view(*value)),
            body: Box::new(ast_view(*body)),
        },
        Ast::Letrec { name, value, body } => AstView::Letrec {
            name: name@,
            value: Box::new(ast_view(*value)),
            body: Box::new(ast_view(*body)),
        },
        Ast::Import { module, name, body } => AstView::Import {
            module: module@,
            name: name@,
            body: Box::new(ast_view(*body)),
        },
    }
}

impl View for Ast {
    type V = AstView;

    open spec fn view(&self) -> AstView {
        ast_view(*self)
    }
}

impl AstView {
    pub open spec fn size(self) -> nat
        decreases self,
    {
        match self {
            AstView::Var(_) => 1,
            AstView::Nat(_) => 1,
            AstView::Boolean(_) => 1,
            AstView::Lambda { body, .. } => 1 + body.size(),
            AstView::Apply { func, arg } => 1 + func.size() + arg.size(),
            AstView::Let { value, body, .. } => 1 + value.size() + body.size(),
            AstView::Letrec { value, body, .. } => 1 + value.size() + body.size(),
            AstView::Import { body, .. } => 1 + body.size(),
        }
    }
}

impl Ast {
    /// Create a new variable AST node
    pub fn var(name: &str) -> (a: Ast)
        ensures
            a@ == AstView::Var(name@),
    {
        Ast::Var(name.to_owned())
    }

    /// Create a new natural number AST node
    pub fn natural(value: usize) -> (a: Ast)
        ensures
            a@ == AstView::Nat(value as nat),
    {
        Ast::Nat(value)
    }

    /// Create a new boolean AST node
    pub fn boolean(value: bool) -> (a: Ast)
        ensures
            a@ == AstView::Boolean(value),
    {
        Ast::Boolean(value)
    }

    /// Create a new lambda AST node
    pub fn lambda(param: &str, body: Ast) -> (a: Ast)
        ensures
            a@ == (AstView::Lambda { param: param@, body: Box::new(body@) }),
    {
        Ast::Lambda { param: param.to_owned(), body: Box::new(body) }
    }

    /// Create a new application AST node
    pub fn apply(func: Ast, arg: Ast) -> (a: Ast)
        ensures
            a@ == (AstView::Apply { func: Box::new(func@), arg: Box::new(arg@) }),
    {
        Ast::Apply { func: Box::new(func), arg: Box::new(arg) }
    }

    /// Create a new let binding AST node
    pub fn let_binding(name: &str, value: Ast, body: Ast) -> (a: Ast)
        ensures
            a@ == (AstView::Let { name: name@, value: Box::new(value@), body: Box::new(body@) }),
    {
        Ast::Let { name: name.to_owned(), value: Box::new(value), body: Box::new(body) }
    }

    /// Create a new letrec binding AST node
    pub fn letrec_binding(name: &str, value: Ast, body: Ast) -> (a: Ast)
        ensures
            a@ == (AstView::Letrec { name: name@, value: Box::new(value@), body: Box::new(body@) }),
    {
        Ast::Letrec { name: name.to_owned(), value: Box::new(value), body: Box::new(body) }
    }

    /// Create a new import AST node
    pub fn import(module: &str, name: &str, body: Ast) -> (a: Ast)
        ensures
            a@ == (AstView::Import { module: module@, name: name@, body: Box::new(body@) }),
    {
        Ast::Import { module: module.to_owned(), name: name.to_owned(), body: Box::new(body) }
    }
}

fn ast_eq(a: &Ast, b: &Ast) -> (r: bool)
    ensures
        r == (a@ == b@),
    decreases a,
{
    proof {
        reveal_with_fuel(ast_view, 2);
    }
    match (a, b) {
        (Ast::Var(x), Ast::Var(y)) => *x == *y,
        (Ast::Nat(x), Ast::Nat(y)) => *x == *y,
        (Ast::Boolean(x), Ast::Boolean(y)) => *x == *y,
        (Ast::Lambda { param: p1, body: b1 }, Ast::Lambda { param: p2, body: b2 }) => {
            *p1 == *p2 && ast_eq(&**b1, &**b2)
        },
        (Ast::Apply { func: f1, arg: a1 }, Ast::Apply { func: f2, arg: a2 }) => {
            ast_eq(&**f1, &**f2) && ast_eq(&**a1, &**a2)
        },
        (Ast::Let { name: n1, value: v1, body: b1 }, Ast::Let { name: n2, value: v2, body: b2 }) => {
            *n1 == *n2 && ast_eq(&**v1, &**v2) && ast_eq(&**b1, &**b2)
        },
        (
            Ast::Letrec { name: n1, value: v1, body: b1 },
            Ast::Letrec { name: n2, value: v2, body: b2 },
        ) => {
            *n1 == *n2 && ast_eq(&**v1, &**v2) && ast_eq(&**b1, &**b2)
        },
        (
            Ast::Import { module: m1, name: n1, body: b1 },
            Ast::Import { module: m2, name: n2, body: b2 },
        ) => {
            *m1 == *m2 && *n1 == *n2 && ast_eq(&**b1, &**b2)
        },
        _ => false,
    }
}

impl PartialEq for Ast {
    fn eq(&self, other: &Self) -> (r: bool) {
        ast_eq(self, other)
    }
}

impl vstd::std_specs::cmp::PartialEqSpecImpl for Ast {
    open spec fn obeys_eq_spec() -> bool {
        true
    }

    open spec fn eq_spec(&self, other: &Ast) -> bool {
        self@ == other@
    }
}

} // verus!
