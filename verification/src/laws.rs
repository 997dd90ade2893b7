//! Properties that relate several operations of the interpreter.
use crate::eval::common::{beta_spec, de_bruijn_spec, lookup, next_index, shift_spec, subst_spec};
use crate::eval::reduction::{lemma_reduces_app_arg, lemma_reduces_step, lemma_reduces_trans, one_step, reduces};
use crate::import::{
    cycle_of, entry_lookup, first_index, import_spec, join_path, module_file, resolve_spec, stack_ok,
    ImportErrorView, ResolutionView,
};
use crate::front_end;
use crate::lexer::tokenize_spec;
use crate::parser::parse_spec;
use crate::syntax::desugar::{desugar_spec, let_view};
use crate::syntax::AstView;
use crate::syntax::expr::{church_body, church_boolean, church_numeral, y_combinator, ExprView};
use crate::syntax::TermView;
use vstd::prelude::*;

verus! {

proof fn lemma_church_body_count(n: nat)
    ensures
        church_body(n).church_count(seq!['f'], seq!['x']) == Some(n),
    decreases n,
{
    if n > 0 {
        lemma_church_body_count((n - 1) as nat);
    }
}

/// A numeral read back: the Church numeral that `Expr::natural` builds for
/// `n` is recognised by `Expr::to_nat` as `n`.
pub proof fn law_numeral_round_trip(n: nat)
    ensures
        church_numeral(n).church_value() == Some(n),
{
    lemma_church_body_count(n);
}

/// Converting to de Bruijn form forgets nothing: a term converted from an
/// expression converts back (`Expr::from`) to that same expression.
pub proof fn law_de_bruijn_round_trip(e: ExprView, env: Seq<Seq<char>>)
    requires
        de_bruijn_spec(e, env) is Ok,
    ensures
        de_bruijn_spec(e, env)->Ok_0.erase() == e,
    decreases e,
{
    match e {
        ExprView::Var(_) => {},
        ExprView::Lambda { param, body } => {
            law_de_bruijn_round_trip(*body, env.push(param));
        },
        ExprView::Apply { func, arg } => {
            law_de_bruijn_round_trip(*func, env);
            law_de_bruijn_round_trip(*arg, env);
        },
    }
}

/// Every variable of the expression is bound by a lambda around it or
/// named in `env`.
pub open spec fn names_bound(e: ExprView, env: Seq<Seq<char>>) -> bool
    decreases e,
{
    match e {
        ExprView::Var(name) => env.contains(name),
        ExprView::Lambda { param, body } => names_bound(*body, env.push(param)),
        ExprView::Apply { func, arg } => names_bound(*func, env) && names_bound(*arg, env),
    }
}

proof fn lemma_lookup_contains(env: Seq<Seq<char>>, name: Seq<char>)
    ensures
        lookup(env, name) is Some <==> env.contains(name),
    decreases env.len(),
{
    if env.len() > 0 {
        lemma_lookup_contains(env.drop_last(), name);
        if env.last() != name {
            assert(env.contains(name) <==> env.drop_last().contains(name)) by {
                if env.contains(name) {
                    let i = choose|i: int| 0 <= i < env.len() && env[i] == name;
                    assert(i < env.len() - 1);
                    assert(env.drop_last()[i] == name);
                }
                if env.drop_last().contains(name) {
                    let i = choose|i: int| 0 <= i < env.drop_last().len() && env.drop_last()[i] == name;
                    assert(env[i] == name);
                }
            }
        } else {
            assert(env[env.len() - 1] == name);
        }
    }
}

/// The conversion to de Bruijn form succeeds exactly when every variable is
/// bound, by a lambda around it or by a name of the scope.
pub proof fn law_de_bruijn_succeeds_when_bound(e: ExprView, env: Seq<Seq<char>>)
    ensures
        de_bruijn_spec(e, env) is Ok <==> names_bound(e, env),
    decreases e,
{
    match e {
        ExprView::Var(name) => {
            lemma_lookup_contains(env, name);
        },
        ExprView::Lambda { param, body } => {
            law_de_bruijn_succeeds_when_bound(*body, env.push(param));
        },
        ExprView::Apply { func, arg } => {
            law_de_bruijn_succeeds_when_bound(*func, env);
            law_de_bruijn_succeeds_when_bound(*arg, env);
        },
    }
}

/// A converted term has no free variable beyond the scope it was converted
/// in; a program's term is closed.
pub proof fn law_de_bruijn_scoped(e: ExprView, env: Seq<Seq<char>>)
    requires
        de_bruijn_spec(e, env) is Ok,
    ensures
        de_bruijn_spec(e, env)->Ok_0.scoped(env.len()),
    decreases e,
{
    match e {
        ExprView::Var(name) => {
            lemma_lookup_bound(env, name);
        },
        ExprView::Lambda { param, body } => {
            law_de_bruijn_scoped(*body, env.push(param));
        },
        ExprView::Apply { func, arg } => {
            law_de_bruijn_scoped(*func, env);
            law_de_bruijn_scoped(*arg, env);
        },
    }
}

/// The term of a program that gets through the front end is closed, so the
/// KN machine never reports an unbound variable for it.
pub proof fn law_program_term_closed(
    src: Seq<char>,
    files: Seq<(Seq<char>, Seq<char>)>,
    dir: Option<Seq<char>>,
)
    ensures
        crate::front_end(src, files, dir) matches Ok(t) ==> t.scoped(0),
{
    if let Ok(t) = crate::front_end(src, files, dir) {
        if let Ok(ts) = tokenize_spec(src) {
            if let Ok(ast) = parse_spec(ts) {
                if let Ok(e) = desugar_spec(ast, files, seq![], dir).0 {
                    law_de_bruijn_scoped(e, seq![]);
                }
            }
        }
    }
}

proof fn lemma_lookup_bound(env: Seq<Seq<char>>, name: Seq<char>)
    ensures
        lookup(env, name) matches Some(i) ==> i < env.len(),
    decreases env.len(),
{
    if env.len() > 0 && env.last() != name {
        lemma_lookup_bound(env.drop_last(), name);
    }
}

/// The height of an expression: the longest chain of lambdas and
/// applications from its root down to a variable.
pub open spec fn expr_height(e: ExprView) -> nat
    decreases e,
{
    match e {
        ExprView::Var(_) => 0,
        ExprView::Lambda { body, .. } => 1 + expr_height(*body),
        ExprView::Apply { func, arg } => 1 + if expr_height(*func) >= expr_height(*arg) {
            expr_height(*func)
        } else {
            expr_height(*arg)
        },
    }
}

/// With a depth of at least the height of the expression nothing is cut
/// off: `Expr::to_string_with_depth` shows what `Expr::to_display_string`
/// shows.
pub proof fn law_full_depth_display(e: ExprView, depth: nat)
    requires
        depth >= expr_height(e),
    ensures
        e.display_with_depth(depth) == e.display(),
    decreases e,
{
    match e {
        ExprView::Var(_) => {},
        ExprView::Lambda { param, body } => {
            law_full_depth_display(*body, (depth - 1) as nat);
        },
        ExprView::Apply { func, arg } => {
            law_full_depth_display(*func, (depth - 1) as nat);
            law_full_depth_display(*func, depth);
            law_full_depth_display(*arg, (depth - 1) as nat);
        },
    }
}

/// A reported import cycle starts and ends with the module that was
/// imported again, and lists the modules in between in the order they were
/// imported.
pub proof fn law_cycle_closes(stack: Seq<ResolutionView>, r: ResolutionView)
    requires
        stack.contains(r),
    ensures
        cycle_of(stack, r).len() >= 2,
        cycle_of(stack, r)[0] == r,
        cycle_of(stack, r).last() == r,
        forall|i: int|
            0 <= i < cycle_of(stack, r).len() - 1 ==> cycle_of(stack, r)[i] == stack[first_index(
                stack,
                r,
            ) + i],
{
    lemma_first_index_found(stack, r);
}

proof fn lemma_first_index_found(s: Seq<ResolutionView>, x: ResolutionView)
    requires
        s.contains(x),
    ensures
        first_index(s, x) < s.len(),
        s[first_index(s, x) as int] == x,
    decreases s.len(),
{
    if s[0] != x {
        let i = choose|i: int| 0 <= i < s.len() && s[i] == x;
        assert(s.drop_first()[i - 1] == x);
        lemma_first_index_found(s.drop_first(), x);
    }
}

/// Alpha-equivalence, the meaning of `==` on terms, is an equivalence
/// relation.
pub proof fn law_term_eq_is_equivalence(a: TermView, b: TermView, c: TermView)
    ensures
        a.alpha_eq(a),
        a.alpha_eq(b) ==> b.alpha_eq(a),
        a.alpha_eq(b) && b.alpha_eq(c) ==> a.alpha_eq(c),
{
    crate::syntax::term::lemma_alpha_eq_refl(a);
    if a.alpha_eq(b) {
        crate::syntax::term::lemma_alpha_eq_symm(a, b);
        if b.alpha_eq(c) {
            crate::syntax::term::lemma_alpha_eq_trans(a, b, c);
        }
    }
}

/// `let name = value in body` means `(\name . body) value`: both desugar to
/// the same expression, and fail on the same import, unless the value and
/// the body both fail (then each form reports the failure it meets first).
pub proof fn law_let_is_applied_lambda(
    name: Seq<char>,
    value: AstView,
    body: AstView,
    files: Seq<(Seq<char>, Seq<char>)>,
    stack: Seq<ResolutionView>,
    dir: Option<Seq<char>>,
)
    requires
        stack_ok(files, stack),
        desugar_spec(value, files, stack, dir).0 is Ok || desugar_spec(body, files, stack, dir).0 is Ok,
    ensures
        desugar_spec(
            AstView::Let { name, value: Box::new(value), body: Box::new(body) },
            files,
            stack,
            dir,
        ) == desugar_spec(
            AstView::Apply {
                func: Box::new(AstView::Lambda { param: name, body: Box::new(body) }),
                arg: Box::new(value),
            },
            files,
            stack,
            dir,
        ),
{
    let lam = AstView::Lambda { param: name, body: Box::new(body) };
    assert(desugar_spec(lam, files, stack, dir) == match desugar_spec(body, files, stack, dir) {
        (Ok(b), _) => (Ok(ExprView::Lambda { param: name, body: Box::new(b) }), stack),
        (Err(e), s) => (Err(e), s),
    });
}

/// Without user files, an import resolves the same with a directory as
/// without one, or fails either way.
proof fn lemma_import_without_files(stack: Seq<ResolutionView>, module: Seq<char>, d: Seq<char>)
    requires
        stack_ok(seq![], stack),
    ensures
        import_spec(seq![], stack, module, Some(d)).0 is Ok <==> import_spec(seq![], stack, module, None).0 is Ok,
        import_spec(seq![], stack, module, Some(d)).0 is Ok ==> import_spec(seq![], stack, module, Some(d)).0
            == import_spec(seq![], stack, module, None).0,
{
    let files = Seq::<(Seq<char>, Seq<char>)>::empty();
    let p = join_path(d, module_file(module));
    assert(entry_lookup(files, p) is None);
    assert(resolve_spec(files, module, Some(d)) is Ok <==> resolve_spec(files, module, None) is Ok);
    assert(resolve_spec(files, module, Some(d)) is Ok ==> resolve_spec(files, module, Some(d))
        == resolve_spec(files, module, None));
}

/// Without user files, desugaring gives the same expression whether the
/// program has a directory or not, and fails in both cases or in neither.
proof fn lemma_desugar_without_files(ast: AstView, stack: Seq<ResolutionView>, d: Seq<char>)
    requires
        stack_ok(seq![], stack),
    ensures
        desugar_spec(ast, seq![], stack, Some(d)).0 is Ok <==> desugar_spec(ast, seq![], stack, None).0 is Ok,
        desugar_spec(ast, seq![], stack, Some(d)).0 is Ok ==> desugar_spec(ast, seq![], stack, Some(d)).0
            == desugar_spec(ast, seq![], stack, None).0,
    decreases ast,
{
    match ast {
        AstView::Lambda { body, .. } => {
            lemma_desugar_without_files(*body, stack, d);
        },
        AstView::Apply { func, arg } => {
            lemma_desugar_without_files(*func, stack, d);
            lemma_desugar_without_files(*arg, stack, d);
        },
        AstView::Let { value, body, .. } => {
            lemma_desugar_without_files(*value, stack, d);
            lemma_desugar_without_files(*body, stack, d);
        },
        AstView::Letrec { value, body, .. } => {
            lemma_desugar_without_files(*value, stack, d);
            lemma_desugar_without_files(*body, stack, d);
        },
        AstView::Import { module, body, .. } => {
            lemma_import_without_files(stack, module, d);
            lemma_desugar_without_files(*body, stack, d);
        },
        _ => {},
    }
}

/// Running a program from a directory that holds no module files is
/// running it as a plain string: its front end succeeds in both cases or in
/// neither, with the same term, and so the same evaluation follows.
pub proof fn law_directory_without_files(src: Seq<char>, d: Seq<char>)
    ensures
        front_end(src, seq![], Some(d)) is Ok <==> front_end(src, seq![], None) is Ok,
        front_end(src, seq![], Some(d)) is Ok ==> front_end(src, seq![], Some(d)) == front_end(
            src,
            seq![],
            None,
        ),
{
    assert(stack_ok(seq![], Seq::<ResolutionView>::empty()));
    if let Ok(ts) = tokenize_spec(src) {
        if let Ok(ast) = parse_spec(ts) {
            lemma_desugar_without_files(ast, seq![], d);
        }
    }
}

/// The fixed-point combinator as a program: `\f. (\x. f (x x)) (\x. f (x x))`.
pub open spec fn y_ast() -> AstView {
    let half = AstView::Lambda {
        param: seq!['x'],
        body: Box::new(
            AstView::Apply {
                func: Box::new(AstView::Var(seq!['f'])),
                arg: Box::new(
                    AstView::Apply {
                        func: Box::new(AstView::Var(seq!['x'])),
                        arg: Box::new(AstView::Var(seq!['x'])),
                    },
                ),
            },
        ),
    };
    AstView::Lambda {
        param: seq!['f'],
        body: Box::new(AstView::Apply { func: Box::new(half), arg: Box::new(half) }),
    }
}

/// `letrec name = value in body` means `let name = Y (\name . value) in body`
/// with `Y` the fixed-point combinator.
pub proof fn law_letrec_is_let_of_fixed_point(
    name: Seq<char>,
    value: AstView,
    body: AstView,
    files: Seq<(Seq<char>, Seq<char>)>,
    stack: Seq<ResolutionView>,
    dir: Option<Seq<char>>,
)
    requires
        stack_ok(files, stack),
    ensures
        desugar_spec(
            AstView::Letrec { name, value: Box::new(value), body: Box::new(body) },
            files,
            stack,
            dir,
        ) == desugar_spec(
            AstView::Let {
                name,
                value: Box::new(
                    AstView::Apply {
                        func: Box::new(y_ast()),
                        arg: Box::new(AstView::Lambda { param: name, body: Box::new(value) }),
                    },
                ),
                body: Box::new(body),
            },
            files,
            stack,
            dir,
        ),
{
    let vx = AstView::Var(seq!['x']);
    let vf = AstView::Var(seq!['f']);
    let xx = AstView::Apply { func: Box::new(vx), arg: Box::new(vx) };
    let fxx = AstView::Apply { func: Box::new(vf), arg: Box::new(xx) };
    let half = AstView::Lambda { param: seq!['x'], body: Box::new(fxx) };
    let both = AstView::Apply { func: Box::new(half), arg: Box::new(half) };
    let ex = ExprView::Var(seq!['x']);
    let ef = ExprView::Var(seq!['f']);
    let exx = ExprView::Apply { func: Box::new(ex), arg: Box::new(ex) };
    let efxx = ExprView::Apply { func: Box::new(ef), arg: Box::new(exx) };
    let ehalf = ExprView::Lambda { param: seq!['x'], body: Box::new(efxx) };
    let eboth = ExprView::Apply { func: Box::new(ehalf), arg: Box::new(ehalf) };
    assert(desugar_spec(vx, files, stack, dir) == (Ok::<ExprView, ImportErrorView>(ex), stack));
    assert(desugar_spec(vf, files, stack, dir) == (Ok::<ExprView, ImportErrorView>(ef), stack));
    assert(desugar_spec(xx, files, stack, dir) == (Ok::<ExprView, ImportErrorView>(exx), stack));
    assert(desugar_spec(fxx, files, stack, dir) == (Ok::<ExprView, ImportErrorView>(efxx), stack));
    assert(desugar_spec(half, files, stack, dir) == (Ok::<ExprView, ImportErrorView>(ehalf), stack));
    assert(desugar_spec(both, files, stack, dir) == (Ok::<ExprView, ImportErrorView>(eboth), stack));
    assert(desugar_spec(y_ast(), files, stack, dir) == (Ok::<ExprView, ImportErrorView>(
        y_combinator(),
    ), stack));
    let lam = AstView::Lambda { param: name, body: Box::new(value) };
    let fixed = AstView::Apply { func: Box::new(y_ast()), arg: Box::new(lam) };
    match desugar_spec(value, files, stack, dir) {
        (Ok(v), _) => {
            let elam = ExprView::Lambda { param: name, body: Box::new(v) };
            assert(desugar_spec(lam, files, stack, dir) == (Ok::<ExprView, ImportErrorView>(elam), stack));
            assert(desugar_spec(fixed, files, stack, dir) == (Ok::<ExprView, ImportErrorView>(
                ExprView::Apply { func: Box::new(y_combinator()), arg: Box::new(elam) },
            ), stack));
        },
        (Err(e), st) => {
            assert(desugar_spec(lam, files, stack, dir) == (Err::<ExprView, ImportErrorView>(e), st));
            assert(desugar_spec(fixed, files, stack, dir) == (Err::<ExprView, ImportErrorView>(e), st));
        },
    }
}

/// A numeral means its Church numeral.
pub proof fn law_numeral_is_church_numeral(
    n: nat,
    files: Seq<(Seq<char>, Seq<char>)>,
    stack: Seq<ResolutionView>,
    dir: Option<Seq<char>>,
)
    requires
        stack_ok(files, stack),
    ensures
        desugar_spec(AstView::Nat(n), files, stack, dir) == (Ok::<ExprView, ImportErrorView>(
            church_numeral(n),
        ), stack),
{
}

/// `true` and `false` mean the Church booleans `\x . \y . x` and
/// `\x . \y . y`.
pub proof fn law_boolean_is_church_boolean(
    b: bool,
    files: Seq<(Seq<char>, Seq<char>)>,
    stack: Seq<ResolutionView>,
    dir: Option<Seq<char>>,
)
    requires
        stack_ok(files, stack),
    ensures
        desugar_spec(AstView::Boolean(b), files, stack, dir) == (Ok::<ExprView, ImportErrorView>(
            church_boolean(b),
        ), stack),
{
}

/// `import module as name in body` means `let name = <the module> in body`:
/// the imported module is bound like a `let` value.
pub proof fn law_import_is_let_of_module(
    module: Seq<char>,
    name: Seq<char>,
    body: AstView,
    files: Seq<(Seq<char>, Seq<char>)>,
    stack: Seq<ResolutionView>,
    dir: Option<Seq<char>>,
)
    requires
        stack_ok(files, stack),
        import_spec(files, stack, module, dir).0 is Ok,
    ensures
        desugar_spec(
            AstView::Import { module, name, body: Box::new(body) },
            files,
            stack,
            dir,
        ).0 == (match desugar_spec(body, files, stack, dir).0 {
            Ok(b) => Ok(let_view(name, import_spec(files, stack, module, dir).0->Ok_0, b)),
            Err(e) => Err::<ExprView, ImportErrorView>(e),
        }),
{
}

/// Desugaring that succeeds leaves the import stack as it found it.
pub proof fn law_desugar_restores_stack(
    ast: AstView,
    files: Seq<(Seq<char>, Seq<char>)>,
    stack: Seq<ResolutionView>,
    dir: Option<Seq<char>>,
)
    requires
        stack_ok(files, stack),
        desugar_spec(ast, files, stack, dir).0 is Ok,
    ensures
        desugar_spec(ast, files, stack, dir).1 == stack,
    decreases ast,
{
    match ast {
        AstView::Lambda { body, .. } => {},
        _ => {},
    }
}

/// The program has no `import` in it.
pub open spec fn import_free(ast: AstView) -> bool
    decreases ast,
{
    match ast {
        AstView::Import { .. } => false,
        AstView::Lambda { body, .. } => import_free(*body),
        AstView::Apply { func, arg } => import_free(*func) && import_free(*arg),
        AstView::Let { value, body, .. } => import_free(*value) && import_free(*body),
        AstView::Letrec { value, body, .. } => import_free(*value) && import_free(*body),
        _ => true,
    }
}

/// Only imports can fail: a program without `import` always desugars.
pub proof fn law_desugar_without_imports_succeeds(
    ast: AstView,
    files: Seq<(Seq<char>, Seq<char>)>,
    stack: Seq<ResolutionView>,
    dir: Option<Seq<char>>,
)
    requires
        stack_ok(files, stack),
        import_free(ast),
    ensures
        desugar_spec(ast, files, stack, dir).0 is Ok,
    decreases ast,
{
    match ast {
        AstView::Lambda { body, .. } => {
            law_desugar_without_imports_succeeds(*body, files, stack, dir);
        },
        AstView::Apply { func, arg } => {
            law_desugar_without_imports_succeeds(*func, files, stack, dir);
            law_desugar_without_imports_succeeds(*arg, files, stack, dir);
        },
        AstView::Let { value, body, .. } => {
            law_desugar_without_imports_succeeds(*value, files, stack, dir);
            law_desugar_without_imports_succeeds(*body, files, stack, dir);
        },
        AstView::Letrec { value, body, .. } => {
            law_desugar_without_imports_succeeds(*value, files, stack, dir);
            law_desugar_without_imports_succeeds(*body, files, stack, dir);
        },
        _ => {},
    }
}

/// A quarter of the `usize` range: the indices and nesting depths below it
/// leave room for the shifts of a beta step.
pub open spec fn small_bound() -> nat {
    (usize::MAX / 4) as nat
}

/// Every index of `t` is within `small_bound`, and so is every nesting
/// depth, counted from `c` binders around it.
pub open spec fn small(t: TermView, c: nat) -> bool
    decreases t,
{
    match t {
        TermView::Var { index, .. } => index <= small_bound(),
        TermView::Lambda { body, .. } => c < small_bound() && small(*body, c + 1),
        TermView::Apply { func, arg } => small(*func, c) && small(*arg, c),
    }
}

/// The contraction of a redex's body `t`, `k` lambdas deep inside it: the
/// variable bound by the removed lambda becomes `arg` with its free indices
/// raised by `k`, the other variables bound outside the body drop by one.
pub open spec fn contract(t: TermView, k: nat, arg: TermView) -> TermView
    decreases t,
{
    match t {
        TermView::Var { name, index } => if index == k {
            shift_spec(arg, k as isize, 0)
        } else if index > k {
            TermView::Var { name, index: (index - 1) as usize }
        } else {
            t
        },
        TermView::Lambda { param, body } => TermView::Lambda { param, body: Box::new(contract(*body, k + 1, arg)) },
        TermView::Apply { func, arg: a } => TermView::Apply {
            func: Box::new(contract(*func, k, arg)),
            arg: Box::new(contract(*a, k, arg)),
        },
    }
}

/// How often the variable bound `k` lambdas outside `t` occurs in it.
pub open spec fn occurrences(t: TermView, k: nat) -> nat
    decreases t,
{
    match t {
        TermView::Var { index, .. } => if index == k {
            1
        } else {
            0
        },
        TermView::Lambda { body, .. } => occurrences(*body, k + 1),
        TermView::Apply { func, arg } => occurrences(*func, k) + occurrences(*arg, k),
    }
}

proof fn lemma_shift_compose(t: TermView, c: nat, k: nat)
    requires
        small(t, c),
        k <= small_bound(),
        c <= small_bound(),
    ensures
        shift_spec(shift_spec(t, 1isize, c as usize), k as isize, c as usize) == shift_spec(t, (k + 1) as isize, c as usize),
    decreases t,
{
    match t {
        TermView::Lambda { body, .. } => lemma_shift_compose(*body, c + 1, k),
        TermView::Apply { func, arg } => {
            lemma_shift_compose(*func, c, k);
            lemma_shift_compose(*arg, c, k);
        },
        _ => {},
    }
}

proof fn lemma_shift_back(t: TermView, c: nat, k: nat)
    requires
        small(t, c),
        k <= small_bound(),
        c <= small_bound(),
    ensures
        shift_spec(shift_spec(t, (k + 1) as isize, c as usize), -1isize, (c + k) as usize) == shift_spec(t, k as isize, c as usize),
    decreases t,
{
    match t {
        TermView::Lambda { body, .. } => lemma_shift_back(*body, c + 1, k),
        TermView::Apply { func, arg } => {
            lemma_shift_back(*func, c, k);
            lemma_shift_back(*arg, c, k);
        },
        _ => {},
    }
}

proof fn lemma_subst_contract(t: TermView, k: nat, arg: TermView)
    requires
        small(t, k),
        k <= small_bound(),
        small(arg, 0),
    ensures
        shift_spec(subst_spec(t, k as usize, shift_spec(arg, 1isize, 0)).0, -1isize, k as usize) == contract(t, k, arg),
        subst_spec(t, k as usize, shift_spec(arg, 1isize, 0)).1 == occurrences(t, k),
    decreases t,
{
    match t {
        TermView::Var { index, .. } => {
            if index == k {
                lemma_shift_compose(arg, 0, k);
                lemma_shift_back(arg, 0, k);
            }
        },
        TermView::Lambda { body, .. } => lemma_subst_contract(*body, k + 1, arg),
        TermView::Apply { func, arg: a } => {
            lemma_subst_contract(*func, k, arg);
            lemma_subst_contract(*a, k, arg);
        },
    }
}

/// A beta step contracts the redex: in the body, the variable bound by the
/// removed lambda becomes the argument, its free indices raised by the
/// number of lambdas around that place, and the other variables bound
/// outside the body drop by one; the flag tells whether that variable
/// occurs more than once. Away from the top of the `usize` range.
pub proof fn law_beta_contracts(body: TermView, arg: TermView)
    requires
        small(body, 0),
        small(arg, 0),
    ensures
        beta_spec(body, arg).0 == contract(body, 0, arg),
        beta_spec(body, arg).1 == (occurrences(body, 0) > 1),
{
    lemma_subst_contract(body, 0, arg);
}

/// No chain of nested lambdas in `t`, entered with `c` binders around it,
/// reaches the top of the `usize` range.
pub open spec fn binders_fit(t: TermView, c: usize) -> bool
    decreases t,
{
    match t {
        TermView::Var { .. } => true,
        TermView::Lambda { body, .. } => c < usize::MAX && binders_fit(*body, (c + 1) as usize),
        TermView::Apply { func, arg } => binders_fit(*func, c) && binders_fit(*arg, c),
    }
}

proof fn lemma_binders_fit_down(t: TermView, c: usize)
    requires
        c > 0,
        binders_fit(t, c),
    ensures
        binders_fit(t, (c - 1) as usize),
    decreases t,
{
    match t {
        TermView::Var { .. } => {},
        TermView::Lambda { body, .. } => lemma_binders_fit_down(*body, (c + 1) as usize),
        TermView::Apply { func, arg } => {
            lemma_binders_fit_down(*func, c);
            lemma_binders_fit_down(*arg, c);
        },
    }
}

proof fn lemma_scoped_up(t: TermView, n: nat, m: nat)
    requires
        t.scoped(n),
        n <= m,
    ensures
        t.scoped(m),
    decreases t,
{
    match t {
        TermView::Var { .. } => {},
        TermView::Lambda { body, .. } => lemma_scoped_up(*body, n + 1, m + 1),
        TermView::Apply { func, arg } => {
            lemma_scoped_up(*func, n, m);
            lemma_scoped_up(*arg, n, m);
        },
    }
}

/// Shifting touches no variable of a term bound within the cutoff.
proof fn lemma_shift_scoped(t: TermView, n: nat, by: isize, c: usize)
    requires
        t.scoped(n),
        n <= c,
        binders_fit(t, c),
    ensures
        shift_spec(t, by, c) == t,
    decreases t,
{
    match t {
        TermView::Var { .. } => {},
        TermView::Lambda { body, .. } => lemma_shift_scoped(*body, n + 1, by, (c + 1) as usize),
        TermView::Apply { func, arg } => {
            lemma_shift_scoped(*func, n, by, c);
            lemma_shift_scoped(*arg, n, by, c);
        },
    }
}

/// Substitution for a variable a term does not have changes nothing.
proof fn lemma_subst_scoped(t: TermView, n: nat, index: usize, v: TermView)
    requires
        t.scoped(n),
        n <= index,
        binders_fit(t, index),
    ensures
        subst_spec(t, index, v) == (t, 0nat),
    decreases t,
{
    match t {
        TermView::Var { .. } => {},
        TermView::Lambda { body, .. } => lemma_subst_scoped(*body, n + 1, (index + 1) as usize, v),
        TermView::Apply { func, arg } => {
            lemma_subst_scoped(*func, n, index, v);
            lemma_subst_scoped(*arg, n, index, v);
        },
    }
}

/// The fixed-point combinator in de Bruijn form:
/// `\f. (\x. f#1 (x#0 x#0)) (\x. f#1 (x#0 x#0))`.
pub open spec fn y_term() -> TermView {
    TermView::Lambda {
        param: seq!['f'],
        body: Box::new(TermView::Apply { func: Box::new(y_half(y_f())), arg: Box::new(y_half(y_f())) }),
    }
}

/// The `f` inside `Y`, under the lambda of `x`.
pub open spec fn y_f() -> TermView {
    TermView::Var { name: seq!['f'], index: 1 }
}

/// `\x. g (x#0 x#0)`.
pub open spec fn y_half(g: TermView) -> TermView {
    let x = TermView::Var { name: seq!['x'], index: 0 };
    TermView::Lambda {
        param: seq!['x'],
        body: Box::new(
            TermView::Apply {
                func: Box::new(g),
                arg: Box::new(TermView::Apply { func: Box::new(x), arg: Box::new(x) }),
            },
        ),
    }
}

/// The `Y` that `letrec` uses, in de Bruijn form, is `y_term`.
pub proof fn law_y_term_is_the_letrec_combinator()
    ensures
        de_bruijn_spec(y_combinator(), seq![]) == Ok::<TermView, Seq<char>>(y_term()),
{
    let env1 = seq![seq!['f']];
    let env2 = env1.push(seq!['x']);
    assert(seq![seq!['f']] == Seq::<Seq<char>>::empty().push(seq!['f']));
    assert(env2.drop_last() == env1);
    assert(env1.drop_last() =~= Seq::<Seq<char>>::empty());
    assert(seq!['x'] != seq!['f']) by {
        assert(seq!['x'][0] != seq!['f'][0]);
    }
    assert(lookup(env2, seq!['x']) == Some(0nat));
    assert(lookup(env1, seq!['f']) == Some(0nat));
    assert(lookup(env2, seq!['f']) == Some(1nat));
    let ex = ExprView::Var(seq!['x']);
    let exx = ExprView::Apply { func: Box::new(ex), arg: Box::new(ex) };
    let hbody = ExprView::Apply { func: Box::new(ExprView::Var(seq!['f'])), arg: Box::new(exx) };
    let half = ExprView::Lambda { param: seq!['x'], body: Box::new(hbody) };
    let x = TermView::Var { name: seq!['x'], index: 0 };
    let xx = TermView::Apply { func: Box::new(x), arg: Box::new(x) };
    assert(de_bruijn_spec(ex, env2) == Ok::<TermView, Seq<char>>(x));
    assert(de_bruijn_spec(exx, env2) == Ok::<TermView, Seq<char>>(xx));
    assert(de_bruijn_spec(ExprView::Var(seq!['f']), env2) == Ok::<TermView, Seq<char>>(y_f()));
    assert(de_bruijn_spec(hbody, env2) == Ok::<TermView, Seq<char>>(
        TermView::Apply { func: Box::new(y_f()), arg: Box::new(xx) },
    ));
    assert(de_bruijn_spec(half, env1) == Ok::<TermView, Seq<char>>(y_half(y_f())));
    let hh = ExprView::Apply { func: Box::new(half), arg: Box::new(half) };
    assert(de_bruijn_spec(hh, env1) == Ok::<TermView, Seq<char>>(
        TermView::Apply { func: Box::new(y_half(y_f())), arg: Box::new(y_half(y_f())) },
    ));
    assert(y_combinator() == ExprView::Lambda { param: seq!['f'], body: Box::new(hh) });
    assert(Seq::<Seq<char>>::empty().push(seq!['f']) == env1);
}

/// `Y` is a fixed-point combinator: for every closed term `g`, `Y g` and
/// `g (Y g)` reduce to a common term, so they are beta-equivalent.
pub proof fn law_y_is_a_fixed_point_combinator(g: TermView)
    requires
        g.scoped(0),
        binders_fit(g, 1),
    ensures
        ({
            let yg = TermView::Apply { func: Box::new(y_term()), arg: Box::new(g) };
            let common = TermView::Apply {
                func: Box::new(g),
                arg: Box::new(TermView::Apply { func: Box::new(y_half(g)), arg: Box::new(y_half(g)) }),
            };
            &&& reduces(yg, common)
            &&& reduces(TermView::Apply { func: Box::new(g), arg: Box::new(yg) }, common)
        }),
{
    let h = y_half(g);
    let b = TermView::Apply { func: Box::new(h), arg: Box::new(h) };
    let yg = TermView::Apply { func: Box::new(y_term()), arg: Box::new(g) };
    let common = TermView::Apply { func: Box::new(g), arg: Box::new(b) };
    lemma_binders_fit_down(g, 1);
    // first step: Y g to (\x. g (x x)) (\x. g (x x))
    lemma_shift_scoped(g, 0, 1isize, 0);
    lemma_shift_scoped(g, 0, -1isize, 1);
    let hb = TermView::Apply { func: Box::new(y_half(y_f())), arg: Box::new(y_half(y_f())) };
    let x = TermView::Var { name: seq!['x'], index: 0 };
    let xx = TermView::Apply { func: Box::new(x), arg: Box::new(x) };
    let hbody = TermView::Apply { func: Box::new(g), arg: Box::new(xx) };
    assert(next_index(0) == 1);
    assert(subst_spec(y_f(), 1, g).0 == g);
    assert(subst_spec(x, 1, g) == (x, 0nat));
    assert(subst_spec(xx, 1, g).0 == xx);
    assert(subst_spec(TermView::Apply { func: Box::new(y_f()), arg: Box::new(xx) }, 1, g).0 == hbody);
    assert(subst_spec(y_half(y_f()), 0, g).0 == h);
    assert(subst_spec(hb, 0, g).0 == b);
    assert(shift_spec(x, -1isize, 1) == x);
    assert(shift_spec(xx, -1isize, 1) == xx);
    assert(shift_spec(hbody, -1isize, 1) == hbody);
    assert(shift_spec(h, -1isize, 0) == h);
    assert(beta_spec(*y_term()->Lambda_body, g).0 == b);
    assert(one_step(yg, b));
    lemma_reduces_step(yg, b);
    // second step: (\x. g (x x)) (\x. g (x x)) to g ((\x. g (x x)) (\x. g (x x)))
    lemma_scoped_up(g, 0, 1);
    assert(x.scoped(1));
    assert(xx.scoped(1));
    assert(hbody.scoped(1));
    assert(h.scoped(0));
    assert(binders_fit(x, 1));
    assert(binders_fit(xx, 1));
    assert(binders_fit(hbody, 1));
    assert(binders_fit(h, 0));
    lemma_shift_scoped(h, 0, 1isize, 0);
    lemma_shift_scoped(h, 0, 0isize, 0);
    lemma_shift_scoped(h, 0, -1isize, 0);
    lemma_subst_scoped(g, 0, 0, h);
    lemma_shift_scoped(g, 0, -1isize, 0);
    assert(*h->Lambda_body == hbody);
    assert(subst_spec(x, 0, h).0 == h);
    assert(subst_spec(xx, 0, h).0 == b);
    assert(subst_spec(hbody, 0, h).0 == common);
    assert(shift_spec(b, -1isize, 0) == b);
    assert(shift_spec(common, -1isize, 0) == common);
    assert(beta_spec(hbody, h).0 == common);
    assert(one_step(b, common));
    lemma_reduces_step(b, common);
    lemma_reduces_trans(yg, b, common);
    lemma_reduces_app_arg(g, yg, b);
}

/// Every index of the term still fits in a `usize` after `by` is added to
/// it, and no cutoff reached under its binders is at the top of the
/// `usize` range.
pub open spec fn shift_room(t: TermView, by: isize, cutoff: usize) -> bool
    decreases t,
{
    match t {
        TermView::Var { index, .. } => index + by <= usize::MAX,
        TermView::Lambda { body, .. } => cutoff < usize::MAX && shift_room(*body, by, (cutoff + 1) as usize),
        TermView::Apply { func, arg } => shift_room(*func, by, cutoff) && shift_room(*arg, by, cutoff),
    }
}

/// Shifting the free variables of a term up by `by` and back down gives
/// the term back, away from the top of the `usize` range.
pub proof fn law_shift_round_trip(t: TermView, by: isize, cutoff: usize)
    requires
        by >= 0,
        shift_room(t, by, cutoff),
    ensures
        shift_spec(shift_spec(t, by, cutoff), -by as isize, cutoff) == t,
    decreases t,
{
    match t {
        TermView::Var { .. } => {},
        TermView::Lambda { body, .. } => {
            law_shift_round_trip(*body, by, (cutoff + 1) as usize);
        },
        TermView::Apply { func, arg } => {
            law_shift_round_trip(*func, by, cutoff);
            law_shift_round_trip(*arg, by, cutoff);
        },
    }
}

/// Shifting by zero changes nothing.
pub proof fn law_shift_zero(t: TermView, cutoff: usize)
    ensures
        shift_spec(t, 0isize, cutoff) == t,
    decreases t,
{
    match t {
        TermView::Var { .. } => {},
        TermView::Lambda { body, .. } => {
            law_shift_zero(*body, next_index(cutoff));
        },
        TermView::Apply { func, arg } => {
            law_shift_zero(*func, cutoff);
            law_shift_zero(*arg, cutoff);
        },
    }
}

} // verus!
