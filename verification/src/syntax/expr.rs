use super::term::{Term, TermView};
use crate::eval::common::{de_bruijn, de_bruijn_spec, names_of, EvalError};
use crate::import::{get_lib_function_names, lib_term_spec, library_names, load_lib_function_as_term};
use crate::text::{decimal, push_char, push_str, usize_to_string};
use vstd::prelude::*;

verus! {

/// The mathematical model of a named lambda expression.
pub enum ExprView {
    Var(Seq<char>),
    Lambda { param: Seq<char>, body: Box<ExprView> },
    Apply { func: Box<ExprView>, arg: Box<ExprView> },
}

#[derive(Debug)]
pub enum Expr {
    Var(String),
    Lambda { param: String, body: Box<Expr> },
    Apply { func: Box<Expr>, arg: Box<Expr> },
}

pub open spec fn expr_view(e: Expr) -> ExprView
    decreases e,
{
    match e {
        Expr::Var(name) => ExprView::Var(name@),
        Expr::Lambda { param, body } => ExprView::Lambda {
            param: param@,
            body: Box::new(expr_view(*body)),
        },
        Expr::Apply { func, arg } => ExprView::Apply {
            func: Box::new(expr_view(*func)),
            arg: Box::new(expr_view(*arg)),
        },
    }
}

impl View for Expr {
    type V = ExprView;

    open spec fn view(&self) -> ExprView {
        expr_view(*self)
    }
}

/// `f (f (... (f x)))` with `n` applications of `f`.
pub open spec fn church_body(n: nat) -> ExprView
    decreases n,
{
    if n == 0 {
        ExprView::Var(seq!['x'])
    } else {
        ExprView::Apply {
            func: Box::new(ExprView::Var(seq!['f'])),
            arg: Box::new(church_body((n - 1) as nat)),
        }
    }
}

/// The Church numeral of `n`: `\f . \x . f (f (... x))`.
pub open spec fn church_numeral(n: nat) -> ExprView {
    ExprView::Lambda {
        param: seq!['f'],
        body: Box::new(ExprView::Lambda { param: seq!['x'], body: Box::new(church_body(n)) }),
    }
}

/// The Church boolean of `b`: `\x . \y . x` for true, `\x . \y . y` for
/// false.
pub open spec fn church_boolean(b: bool) -> ExprView {
    ExprView::Lambda {
        param: seq!['x'],
        body: Box::new(
            ExprView::Lambda {
                param: seq!['y'],
                body: Box::new(ExprView::Var(if b { seq!['x'] } else { seq!['y'] })),
            },
        ),
    }
}

/// The fixed-point combinator `\f . (\x . f (x x)) (\x . f (x x))`.
pub open spec fn y_combinator() -> ExprView {
    let half = ExprView::Lambda {
        param: seq!['x'],
        body: Box::new(
            ExprView::Apply {
                func: Box::new(ExprView::Var(seq!['f'])),
                arg: Box::new(
                    ExprView::Apply {
                        func: Box::new(ExprView::Var(seq!['x'])),
                        arg: Box::new(ExprView::Var(seq!['x'])),
                    },
                ),
            },
        ),
    };
    ExprView::Lambda {
        param: seq!['f'],
        body: Box::new(ExprView::Apply { func: Box::new(half), arg: Box::new(half) }),
    }
}

impl ExprView {
    pub open spec fn size(self) -> nat
        decreases self,
    {
        match self {
            ExprView::Var(_) => 1,
            ExprView::Lambda { body, .. } => 1 + body.size(),
            ExprView::Apply { func, arg } => 1 + func.size() + arg.size(),
        }
    }

    /// How many times `f` is applied around `x` in `f (f (... x))`, if the
    /// expression has that shape.
    pub open spec fn church_count(self, f: Seq<char>, x: Seq<char>) -> Option<nat>
        decreases self,
    {
        match self {
            ExprView::Var(name) => if name == x {
                Some(0)
            } else {
                None
            },
            ExprView::Apply { func, arg } => match *func {
                ExprView::Var(g) => if g == f {
                    match arg.church_count(f, x) {
                        Some(n) => Some(n + 1),
                        None => None,
                    }
                } else {
                    None
                },
                _ => None,
            },
            _ => None,
        }
    }

    /// The natural number this expression encodes as a Church numeral, if any.
    pub open spec fn church_value(self) -> Option<nat> {
        match self {
            ExprView::Lambda { param: f, body } => match *body {
                ExprView::Lambda { param: x, body: inner } => inner.church_count(f, x),
                _ => None,
            },
            _ => None,
        }
    }

    /// The standard notation: `\x . body`, application by juxtaposition,
    /// with parentheses around a function that is a lambda and around an
    /// argument that is not a variable.
    pub open spec fn display(self) -> Seq<char>
        decreases self,
    {
        match self {
            ExprView::Var(name) => name,
            ExprView::Lambda { param, body } => seq!['\\'] + param + seq![' ', '.', ' ']
                + body.display(),
            ExprView::Apply { func, arg } => {
                let f = match *func {
                    ExprView::Var(_) => func.display(),
                    ExprView::Apply { .. } => func.display(),
                    _ => seq!['('] + func.display() + seq![')'],
                };
                let a = match *arg {
                    ExprView::Var(_) => arg.display(),
                    _ => seq!['('] + arg.display() + seq![')'],
                };
                f + seq![' '] + a
            },
        }
    }

    /// The standard notation cut off at `depth` nested lambdas and
    /// applications, where `...` stands for what is cut off.
    pub open spec fn display_with_depth(self, depth: nat) -> Seq<char>
        decreases self,
    {
        match self {
            ExprView::Var(name) => name,
            ExprView::Lambda { param, body } => if depth == 0 {
                seq!['.', '.', '.']
            } else {
                seq!['\\'] + param + seq![' ', '.', ' '] + body.display_with_depth(
                    (depth - 1) as nat,
                )
            },
            ExprView::Apply { func, arg } => if depth == 0 {
                seq!['.', '.', '.']
            } else {
                let f = match *func {
                    ExprView::Var(_) => func.display_with_depth((depth - 1) as nat),
                    ExprView::Apply { .. } => func.display_with_depth((depth - 1) as nat),
                    _ => seq!['('] + func.display_with_depth(depth) + seq![')'],
                };
                let a = match *arg {
                    ExprView::Var(_) => arg.display_with_depth((depth - 1) as nat),
                    _ => seq!['('] + arg.display_with_depth((depth - 1) as nat) + seq![')'],
                };
                f + seq![' '] + a
            },
        }
    }
}

/// A one-character string.
fn single(c: char) -> (s: String)
    ensures
        s@ == seq![c],
{
    let mut s = String::new();
    push_char(&mut s, c);
    proof {
        assert(s@ =~= seq![c]);
    }
    s
}

/// The string `...`.
fn ellipsis() -> (s: String)
    ensures
        s@ == seq!['.', '.', '.'],
{
    let mut s = String::new();
    push_char(&mut s, '.');
    push_char(&mut s, '.');
    push_char(&mut s, '.');
    proof {
        assert(s@ =~= seq!['.', '.', '.']);
    }
    s
}

impl Clone for Expr {
    fn clone(&self) -> (r: Self)
        ensures
            r == *self,
        decreases self,
    {
        match self {
            Expr::Var(name) => Expr::Var(name.clone()),
            Expr::Lambda { param, body } => Expr::Lambda {
                param: param.clone(),
                body: Box::new((**body).clone()),
            },
            Expr::Apply { func, arg } => Expr::Apply {
                func: Box::new((**func).clone()),
                arg: Box::new((**arg).clone()),
            },
        }
    }
}

impl Expr {
    /// Create a new variable expression
    pub fn var(name: &str) -> (e: Expr)
        ensures
            e@ == ExprView::Var(name@),
    {
        Expr::Var(name.to_owned())
    }

    /// Create a new lambda expression
    pub fn lambda(param: &str, body: Expr) -> (e: Expr)
        ensures
            e@ == (ExprView::Lambda { param: param@, body: Box::new(body@) }),
    {
        Expr::Lambda { param: param.to_owned(), body: Box::new(body) }
    }

    /// Create a new application expression
    pub fn apply(func: Expr, arg: Expr) -> (e: Expr)
        ensures
            e@ == (ExprView::Apply { func: Box::new(func@), arg: Box::new(arg@) }),
    {
        Expr::Apply { func: Box::new(func), arg: Box::new(arg) }
    }

    /// The Church numeral of `num`: `\f . \x . f (f (... x))`.
    pub fn natural(num: usize) -> (e: Expr)
        ensures
            e@ == church_numeral(num as nat),
    {
        let mut body = Expr::Var(single('x'));
        let mut i: usize = 0;
        while i < num
            invariant
                0 <= i <= num,
                body@ == church_body(i as nat),
            decreases num - i,
        {
            let fv = Expr::Var(single('f'));
            assert(fv@ == ExprView::Var(seq!['f']));
            let nb = Expr::Apply { func: Box::new(fv), arg: Box::new(body) };
            assert(nb@ == (ExprView::Apply { func: Box::new(fv@), arg: Box::new(body@) }));
            body = nb;
            i = i + 1;
        }
        proof {
            reveal_with_fuel(expr_view, 3);
        }
        Expr::Lambda {
            param: single('f'),
            body: Box::new(Expr::Lambda { param: single('x'), body: Box::new(body) }),
        }
    }

    /// The Church boolean of `value`: `\x . \y . x` or `\x . \y . y`.
    pub fn boolean(value: bool) -> (e: Expr)
        ensures
            e@ == church_boolean(value),
    {
        let v = Expr::Var(single(if value { 'x' } else { 'y' }));
        let inner = Expr::Lambda { param: single('y'), body: Box::new(v) };
        proof {
            reveal_with_fuel(expr_view, 3);
        }
        Expr::Lambda { param: single('x'), body: Box::new(inner) }
    }

    /// The fixed-point combinator `\f . (\x . f (x x)) (\x . f (x x))`.
    pub fn y_comb() -> (e: Expr)
        ensures
            e@ == y_combinator(),
    {
        let x1 = Expr::Var(single('x'));
        let x2 = Expr::Var(single('x'));
        let f1 = Expr::Var(single('f'));
        assert(x1@ == ExprView::Var(seq!['x']) && x2@ == ExprView::Var(seq!['x']));
        assert(f1@ == ExprView::Var(seq!['f']));
        let xx = Expr::Apply { func: Box::new(x1), arg: Box::new(x2) };
        assert(xx@ == (ExprView::Apply { func: Box::new(ExprView::Var(seq!['x'])), arg: Box::new(ExprView::Var(seq!['x'])) }));
        let fxx = Expr::Apply { func: Box::new(f1), arg: Box::new(xx) };
        assert(fxx@ == (ExprView::Apply { func: Box::new(ExprView::Var(seq!['f'])), arg: Box::new(xx@) }));
        let half = Expr::Lambda { param: single('x'), body: Box::new(fxx) };
        assert(half@ == (ExprView::Lambda { param: seq!['x'], body: Box::new(fxx@) }));
        let other = half.clone();
        let app = Expr::Apply { func: Box::new(half), arg: Box::new(other) };
        assert(app@ == (ExprView::Apply { func: Box::new(half@), arg: Box::new(half@) }));
        let e = Expr::Lambda { param: single('f'), body: Box::new(app) };
        assert(e@ == (ExprView::Lambda { param: seq!['f'], body: Box::new(app@) }));
        e
    }

    /// Try to convert this expression to a Church numeral natural number
    pub fn to_nat(&self) -> (r: Option<usize>)
        ensures
            r == (match self@.church_value() {
                Some(n) => if n <= usize::MAX {
                    Some(n as usize)
                } else {
                    None
                },
                None => None,
            }),
    {
        let (f_param, f_body) = match self {
            Expr::Lambda { param, body } => (param, body),
            _ => {
                return None;
            },
        };
        let (x_param, x_body) = match &**f_body {
            Expr::Lambda { param, body } => (param, body),
            _ => {
                return None;
            },
        };
        assert(self@ == (ExprView::Lambda { param: f_param@, body: Box::new(f_body@) }));
        assert(f_body@ == (ExprView::Lambda { param: x_param@, body: Box::new(x_body@) }));
        proof {
            reveal_with_fuel(expr_view, 3);
        }
        let ghost f = f_param@;
        let ghost x = x_param@;
        let ghost whole = x_body@;
        let mut count: usize = 0;
        let mut current: &Expr = &**x_body;
        loop
            invariant
                f == f_param@,
                x == x_param@,
                whole.church_count(f, x) == (match current@.church_count(f, x) {
                    Some(n) => Some((n + count) as nat),
                    None => None,
                }),
                self@.church_value() == whole.church_count(f, x),
            decreases current@.size(),
        {
            proof {
                reveal_with_fuel(expr_view, 2);
            }
            match current {
                Expr::Var(name) => {
                    if *name == *x_param {
                        return Some(count);
                    }
                    return None;
                },
                Expr::Apply { func, arg } => {
                    let func_name = match &**func {
                        Expr::Var(n) => n,
                        _ => {
                            return None;
                        },
                    };
                    if *func_name != *f_param {
                        return None;
                    }
                    if count == usize::MAX {
                        return None;
                    }
                    count = count + 1;
                    current = &**arg;
                },
                _ => {
                    return None;
                },
            }
        }
    }

    /// The expression in standard notation.
    pub fn to_display_string(&self) -> (s: String)
        ensures
            s@ == self@.display(),
        decreases self,
    {
        match self {
            Expr::Var(name) => name.clone(),
            Expr::Lambda { param, body } => {
                let mut s = String::new();
                push_char(&mut s, '\\');
                push_str(&mut s, param.as_str());
                push_char(&mut s, ' ');
                push_char(&mut s, '.');
                push_char(&mut s, ' ');
                let b = body.to_display_string();
                push_str(&mut s, b.as_str());
                proof {
                    assert(s@ =~= seq!['\\'] + param@ + seq![' ', '.', ' '] + body@.display());
                }
                s
            },
            Expr::Apply { func, arg } => {
                let mut s = String::new();
                match &**func {
                    Expr::Var(_) | Expr::Apply { .. } => {
                        let fs = func.to_display_string();
                        push_str(&mut s, fs.as_str());
                    },
                    _ => {
                        push_char(&mut s, '(');
                        let fs = func.to_display_string();
                        push_str(&mut s, fs.as_str());
                        push_char(&mut s, ')');
                    },
                }
                push_char(&mut s, ' ');
                match &**arg {
                    Expr::Var(_) => {
                        let a = arg.to_display_string();
                        push_str(&mut s, a.as_str());
                    },
                    _ => {
                        push_char(&mut s, '(');
                        let a = arg.to_display_string();
                        push_str(&mut s, a.as_str());
                        push_char(&mut s, ')');
                    },
                }
                proof {
                    let f = match func@ { ExprView::Var(_) => func@.display(), ExprView::Apply { .. } => func@.display(), _ => seq!['('] + func@.display() + seq![')'] };
                    let a = match arg@ { ExprView::Var(_) => arg@.display(), _ => seq!['('] + arg@.display() + seq![')'] };
                    assert(s@ =~= f + seq![' '] + a);
                }
                s
            },
        }
    }

    pub fn to_string_with_depth(&self, depth: usize) -> (s: String)
        ensures
            s@ == self@.display_with_depth(depth as nat),
        decreases self,
    {
        match self {
            Expr::Var(name) => name.clone(),
            Expr::Lambda { param, body } => {
                if depth == 0 {
                    ellipsis()
                } else {
                    let mut s = String::new();
                    push_char(&mut s, '\\');
                    push_str(&mut s, param.as_str());
                    push_char(&mut s, ' ');
                    push_char(&mut s, '.');
                    push_char(&mut s, ' ');
                    let b = body.to_string_with_depth(depth - 1);
                    push_str(&mut s, b.as_str());
                    proof {
                        assert(s@ =~= seq!['\\'] + param@ + seq![' ', '.', ' '] + body@.display_with_depth((depth - 1) as nat));
                    }
                    s
                }
            },
            Expr::Apply { func, arg } => {
                if depth == 0 {
                    ellipsis()
                } else {
                    let mut s = String::new();
                    match &**func {
                        Expr::Var(_) | Expr::Apply { .. } => {
                            let fs = func.to_string_with_depth(depth - 1);
                            push_str(&mut s, fs.as_str());
                        },
                        _ => {
                            push_char(&mut s, '(');
                            let fs = func.to_string_with_depth(depth);
                            push_str(&mut s, fs.as_str());
                            push_char(&mut s, ')');
                        },
                    }
                    push_char(&mut s, ' ');
                    match &**arg {
                        Expr::Var(_) => {
                            let a = arg.to_string_with_depth(depth - 1);
                            push_str(&mut s, a.as_str());
                        },
                        _ => {
                            push_char(&mut s, '(');
                            let a = arg.to_string_with_depth(depth - 1);
                            push_str(&mut s, a.as_str());
                            push_char(&mut s, ')');
                        },
                    }
                    proof {
                        let d = (depth - 1) as nat;
                        let f = match func@ { ExprView::Var(_) => func@.display_with_depth(d), ExprView::Apply { .. } => func@.display_with_depth(d), _ => seq!['('] + func@.display_with_depth(depth as nat) + seq![')'] };
                        let a = match arg@ { ExprView::Var(_) => arg@.display_with_depth(d), _ => seq!['('] + arg@.display_with_depth(d) + seq![')'] };
                        assert(s@ =~= f + seq![' '] + a);
                    }
                    s
                }
            },
        }
    }
}

fn expr_eq(a: &Expr, b: &Expr) -> (r: bool)
    ensures
        r == (a@ == b@),
    decreases a,
{
    proof {
        reveal_with_fuel(expr_view, 2);
    }
    match (a, b) {
        (Expr::Var(x), Expr::Var(y)) => *x == *y,
        (Expr::Lambda { param: p1, body: b1 }, Expr::Lambda { param: p2, body: b2 }) => {
            *p1 == *p2 && expr_eq(&**b1, &**b2)
        },
        (Expr::Apply { func: f1, arg: a1 }, Expr::Apply { func: f2, arg: a2 }) => {
            expr_eq(&**f1, &**f2) && expr_eq(&**a1, &**a2)
        },
        _ => false,
    }
}

impl PartialEq for Expr {
    fn eq(&self, other: &Self) -> (r: bool) {
        expr_eq(self, other)
    }
}

impl vstd::std_specs::cmp::PartialEqSpecImpl for Expr {
    open spec fn obeys_eq_spec() -> bool {
        true
    }

    open spec fn eq_spec(&self, other: &Expr) -> bool {
        self@ == other@
    }
}

/// The first of `names` whose library term is alpha-equivalent to `t`.
pub open spec fn lib_match_from(t: TermView, names: Seq<Seq<char>>) -> Option<Seq<char>>
    decreases names.len(),
{
    if names.len() == 0 {
        None
    } else {
        match lib_term_spec(names[0]) {
            Ok(lt) => if t.alpha_eq(lt) {
                Some(names[0])
            } else {
                lib_match_from(t, names.drop_first())
            },
            Err(_) => lib_match_from(t, names.drop_first()),
        }
    }
}

impl ExprView {
    /// The Church numeral value, when it fits in a `usize`.
    pub open spec fn nat_value(self) -> Option<nat> {
        match self.church_value() {
            Some(n) => if n <= usize::MAX {
                Some(n)
            } else {
                None
            },
            None => None,
        }
    }

    /// The first library module, in the order of their names, that this
    /// closed expression equals up to the names of its variables.
    pub open spec fn lib_function(self) -> Option<Seq<char>> {
        match de_bruijn_spec(self, seq![]) {
            Ok(t) => lib_match_from(t, library_names()),
            Err(_) => None,
        }
    }

    /// A number for a Church numeral, else the name of a library module.
    pub open spec fn readable(self) -> Option<Seq<char>> {
        match self.nat_value() {
            Some(n) => Some(decimal(n)),
            None => self.lib_function(),
        }
    }

    /// The readable form if there is one, else the standard notation.
    pub open spec fn readable_display(self) -> Seq<char> {
        match self.readable() {
            Some(r) => r,
            None => self.display(),
        }
    }

    /// The standard notation cut off at `depth`, where every subexpression
    /// that has a readable form is shown in it.
    pub open spec fn readable_with_depth(self, depth: nat) -> Seq<char>
        decreases self,
    {
        match self.readable() {
            Some(r) => r,
            None => match self {
                ExprView::Var(name) => name,
                ExprView::Lambda { param, body } => if depth == 0 {
                    seq!['.', '.', '.']
                } else {
                    seq!['\\'] + param + seq![' ', '.', ' '] + body.readable_with_depth(
                        (depth - 1) as nat,
                    )
                },
                ExprView::Apply { func, arg } => if depth == 0 {
                    seq!['.', '.', '.']
                } else {
                    let d = (depth - 1) as nat;
                    let f = match func.readable() {
                        Some(r) => r,
                        None => match *func {
                            ExprView::Var(_) => func.readable_with_depth(d),
                            ExprView::Apply { .. } => func.readable_with_depth(d),
                            _ => seq!['('] + func.readable_with_depth(d) + seq![')'],
                        },
                    };
                    let a = match arg.readable() {
                        Some(r) => r,
                        None => match *arg {
                            ExprView::Var(_) => arg.readable_with_depth(d),
                            _ => seq!['('] + arg.readable_with_depth(d) + seq![')'],
                        },
                    };
                    f + seq![' '] + a
                },
            },
        }
    }
}

impl Term {
    /// The de Bruijn form of a closed expression, or the leftmost variable
    /// that no lambda binds.
    pub fn try_from_expr(expr: Expr) -> (r: Result<Term, EvalError>)
        ensures
            match de_bruijn_spec(expr@, seq![]) {
                Ok(t) => r matches Ok(x) && x@ == t,
                Err(n) => r matches Err(EvalError::UndefinedVariable { name }) && name@ == n,
            },
    {
        let mut env: Vec<String> = Vec::new();
        proof {
            assert(names_of(env@) =~= Seq::<Seq<char>>::empty());
        }
        de_bruijn(&expr, &mut env)
    }
}

impl Expr {
    /// Try to recognize this expression as a common function by comparing
    /// against the library files
    pub fn to_lib_function(&self) -> (r: Option<&'static str>)
        ensures
            match self@.lib_function() {
                Some(n) => r matches Some(x) && x@ == n,
                None => r is None,
            },
    {
        let self_term = match Term::try_from_expr(self.clone()) {
            Ok(t) => t,
            Err(_) => {
                return None;
            },
        };
        let ghost t = self_term@;
        let names = get_lib_function_names();
        let ghost all = library_names();
        let mut i: usize = 0;
        assert(all.skip(0) =~= all);
        while i < names.len()
            invariant
                i <= names@.len(),
                names@.map_values(|s: &str| s@) == all,
                self@.lib_function() == lib_match_from(t, all.skip(i as int)),
                t == self_term@,
            decreases names@.len() - i,
        {
            let name = names[i];
            proof {
                assert(all.skip(i as int)[0] == name@);
                assert(all.skip(i as int).drop_first() =~= all.skip(i + 1));
            }
            match load_lib_function_as_term(name) {
                Ok(lib_term) => {
                    if self_term == lib_term {
                        return Some(name);
                    }
                },
                Err(_) => {},
            }
            i = i + 1;
        }
        None
    }

    /// Display the expression in a readable format, converting to natural numbers
    /// and library functions when possible
    pub fn try_into_readable_string(&self) -> (r: Option<String>)
        ensures
            match self@.readable() {
                Some(s) => r matches Some(x) && x@ == s,
                None => r is None,
            },
    {
        if let Some(n) = self.to_nat() {
            return Some(usize_to_string(n));
        }
        if let Some(lib_fn) = self.to_lib_function() {
            return Some(lib_fn.to_owned());
        }
        None
    }

    /// Display the expression in a readable format, converting to natural numbers
    /// and library functions when possible. Falls back to standard notation.
    pub fn to_readable_string(&self) -> (s: String)
        ensures
            s@ == self@.readable_display(),
    {
        if let Some(readable) = self.try_into_readable_string() {
            return readable;
        }
        self.to_display_string()
    }

    pub fn to_readable_string_with_depth(&self, depth: usize) -> (s: String)
        ensures
            s@ == self@.readable_with_depth(depth as nat),
        decreases self,
    {
        if let Some(readable) = self.try_into_readable_string() {
            return readable;
        }
        match self {
            Expr::Var(name) => name.clone(),
            Expr::Lambda { param, body } => {
                if depth == 0 {
                    ellipsis()
                } else {
                    let mut s = String::new();
                    push_char(&mut s, '\\');
                    push_str(&mut s, param.as_str());
                    push_char(&mut s, ' ');
                    push_char(&mut s, '.');
                    push_char(&mut s, ' ');
                    let b = body.to_readable_string_with_depth(depth - 1);
                    push_str(&mut s, b.as_str());
                    proof {
                        assert(s@ =~= seq!['\\'] + param@ + seq![' ', '.', ' ']
                            + body@.readable_with_depth((depth - 1) as nat));
                    }
                    s
                }
            },
            Expr::Apply { func, arg } => {
                if depth == 0 {
                    ellipsis()
                } else {
                    let func_str = if let Some(readable_func) = func.try_into_readable_string() {
                        readable_func
                    } else {
                        match &**func {
                            Expr::Var(_) | Expr::Apply { .. } => {
                                func.to_readable_string_with_depth(depth - 1)
                            },
                            _ => {
                                let mut s = single('(');
                                let inner = func.to_readable_string_with_depth(depth - 1);
                                push_str(&mut s, inner.as_str());
                                push_char(&mut s, ')');
                                s
                            },
                        }
                    };
                    let arg_str = if let Some(readable_arg) = arg.try_into_readable_string() {
                        readable_arg
                    } else {
                        match &**arg {
                            Expr::Var(_) => arg.to_readable_string_with_depth(depth - 1),
                            _ => {
                                let mut s = single('(');
                                let inner = arg.to_readable_string_with_depth(depth - 1);
                                push_str(&mut s, inner.as_str());
                                push_char(&mut s, ')');
                                s
                            },
                        }
                    };
                    let mut s = func_str;
                    push_char(&mut s, ' ');
                    push_str(&mut s, arg_str.as_str());
                    proof {
                        let d = (depth - 1) as nat;
                        let f = match func@.readable() {
                            Some(r) => r,
                            None => match func@ {
                                ExprView::Var(_) => func@.readable_with_depth(d),
                                ExprView::Apply { .. } => func@.readable_with_depth(d),
                                _ => seq!['('] + func@.readable_with_depth(d) + seq![')'],
                            },
                        };
                        let a = match arg@.readable() {
                            Some(r) => r,
                            None => match arg@ {
                                ExprView::Var(_) => arg@.readable_with_depth(d),
                                _ => seq!['('] + arg@.readable_with_depth(d) + seq![')'],
                            },
                        };
                        assert(s@ =~= f + seq![' '] + a);
                    }
                    s
                }
            },
        }
    }
}

} // verus!
