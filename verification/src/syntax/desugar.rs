use super::ast::{Ast, AstView};
use super::expr::{church_boolean, church_numeral, y_combinator, Expr, ExprView};
use crate::eval::common::EvalError;
use crate::import::{
    import_measure, import_spec, stack_ok, ImportErrorView, Importer, ResolutionView,
};
use vstd::prelude::*;

verus! {

/// `let name = value in body`: `(\name . body) value`.
pub open spec fn let_view(name: Seq<char>, value: ExprView, body: ExprView) -> ExprView {
    ExprView::Apply {
        func: Box::new(ExprView::Lambda { param: name, body: Box::new(body) }),
        arg: Box::new(value),
    }
}

/// `letrec name = value in body`: `let name = Y (\name . value) in body`.
pub open spec fn letrec_view(name: Seq<char>, value: ExprView, body: ExprView) -> ExprView {
    let_view(
        name,
        ExprView::Apply {
            func: Box::new(y_combinator()),
            arg: Box::new(ExprView::Lambda { param: name, body: Box::new(value) }),
        },
        body,
    )
}

/// The directory of a program, as a sequence of characters.
pub open spec fn dir_view(dir: Option<&str>) -> Option<Seq<char>> {
    match dir {
        Some(d) => Some(d@),
        None => None,
    }
}

/// Desugaring of `ast` with the import stack `stack` and the user files
/// `files`: numerals become Church numerals, `let` an applied lambda,
/// `letrec` a `let` of the fixed point, `import` a `let` of the imported
/// module, and `true` and `false` Church booleans. Subterms are desugared left to right and the first failed import
/// stops it. Also gives the import stack left behind: `stack` itself on
/// success.
pub open spec fn desugar_spec(
    ast: AstView,
    files: Seq<(Seq<char>, Seq<char>)>,
    stack: Seq<ResolutionView>,
    dir: Option<Seq<char>>,
) -> (Result<ExprView, ImportErrorView>, Seq<ResolutionView>)
    decreases import_measure(files, stack), ast.size(),
    when stack_ok(files, stack)
{
    match ast {
        AstView::Var(name) => (Ok(ExprView::Var(name)), stack),
        AstView::Nat(n) => (Ok(church_numeral(n)), stack),
        AstView::Boolean(b) => (Ok(church_boolean(b)), stack),
        AstView::Lambda { param, body } => match desugar_spec(*body, files, stack, dir) {
            (Ok(b), _) => (Ok(ExprView::Lambda { param, body: Box::new(b) }), stack),
            (Err(e), s) => (Err(e), s),
        },
        AstView::Apply { func, arg } => match desugar_spec(*func, files, stack, dir) {
            (Ok(f), _) => match desugar_spec(*arg, files, stack, dir) {
                (Ok(a), _) => (
                    Ok(ExprView::Apply { func: Box::new(f), arg: Box::new(a) }),
                    stack,
                ),
                (Err(e), s) => (Err(e), s),
            },
            (Err(e), s) => (Err(e), s),
        },
        AstView::Let { name, value, body } => match desugar_spec(*value, files, stack, dir) {
            (Ok(v), _) => match desugar_spec(*body, files, stack, dir) {
                (Ok(b), _) => (Ok(let_view(name, v, b)), stack),
                (Err(e), s) => (Err(e), s),
            },
            (Err(e), s) => (Err(e), s),
        },
        AstView::Letrec { name, value, body } => match desugar_spec(*value, files, stack, dir) {
            (Ok(v), _) => match desugar_spec(*body, files, stack, dir) {
                (Ok(b), _) => (Ok(letrec_view(name, v, b)), stack),
                (Err(e), s) => (Err(e), s),
            },
            (Err(e), s) => (Err(e), s),
        },
        AstView::Import { module, name, body } => match import_spec(files, stack, module, dir) {
            (Ok(m), _) => match desugar_spec(*body, files, stack, dir) {
                (Ok(b), _) => (Ok(let_view(name, m, b)), stack),
                (Err(e), s) => (Err(e), s),
            },
            (Err(e), s) => (Err(e), s),
        },
    }
}

/// The exec result of a desugaring or an import agrees with its model.
pub open spec fn agrees_import(r: Result<Expr, EvalError>, s: Result<ExprView, ImportErrorView>) -> bool {
    match s {
        Ok(e) => r matches Ok(x) && x@ == e,
        Err(ie) => r matches Err(EvalError::Import(x)) && x@ == ie,
    }
}

fn desugar_let(name: String, value: Expr, body: Expr) -> (e: Expr)
    ensures
        e@ == let_view(name@, value@, body@),
{
    let lam = Expr::Lambda { param: name, body: Box::new(body) };
    assert(lam@ == (ExprView::Lambda { param: name@, body: Box::new(body@) }));
    let e = Expr::Apply { func: Box::new(lam), arg: Box::new(value) };
    assert(e@ == (ExprView::Apply { func: Box::new(lam@), arg: Box::new(value@) }));
    e
}

fn desugar_letrec(name: String, value: Expr, body: Expr) -> (e: Expr)
    ensures
        e@ == letrec_view(name@, value@, body@),
{
    let lam = Expr::Lambda { param: name.clone(), body: Box::new(value) };
    assert(lam@ == (ExprView::Lambda { param: name@, body: Box::new(value@) }));
    let y = Expr::y_comb();
    let fixed = Expr::Apply { func: Box::new(y), arg: Box::new(lam) };
    assert(fixed@ == (ExprView::Apply { func: Box::new(y@), arg: Box::new(lam@) }));
    desugar_let(name, fixed, body)
}

/// Desugar an AST into an Expr by converting Let bindings to lambda applications
pub fn desugar(ast: Ast, importer: &mut Importer, file_dir: Option<&str>) -> (r: Result<
    Expr,
    EvalError,
>)
    requires
        old(importer).wf(),
    ensures
        final(importer).wf(),
        final(importer)@.files == old(importer)@.files,
        agrees_import(
            r,
            desugar_spec(ast@, old(importer)@.files, old(importer)@.stack, dir_view(file_dir)).0,
        ),
        final(importer)@.stack == desugar_spec(
            ast@,
            old(importer)@.files,
            old(importer)@.stack,
            dir_view(file_dir),
        ).1,
        r is Ok ==> final(importer)@.stack == old(importer)@.stack,
    decreases import_measure(old(importer)@.files, old(importer)@.stack), ast@.size(),
{
    proof {
        reveal_with_fuel(crate::syntax::ast::ast_view, 2);
    }
    match ast {
        Ast::Var(name) => Ok(Expr::Var(name)),
        Ast::Nat(num) => Ok(Expr::natural(num)),
        Ast::Boolean(b) => Ok(Expr::boolean(b)),
        Ast::Lambda { param, body } => {
            let b = desugar(*body, importer, file_dir)?;
            Ok(Expr::Lambda { param, body: Box::new(b) })
        },
        Ast::Apply { func, arg } => {
            let f = desugar(*func, importer, file_dir)?;
            let a = desugar(*arg, importer, file_dir)?;
            Ok(Expr::Apply { func: Box::new(f), arg: Box::new(a) })
        },
        Ast::Let { name, value, body } => {
            let v = desugar(*value, importer, file_dir)?;
            let b = desugar(*body, importer, file_dir)?;
            Ok(desugar_let(name, v, b))
        },
        Ast::Letrec { name, value, body } => {
            let v = desugar(*value, importer, file_dir)?;
            let b = desugar(*body, importer, file_dir)?;
            Ok(desugar_letrec(name, v, b))
        },
        Ast::Import { module, name, body } => {
            let imported = importer.import(module.as_str(), file_dir)?;
            let b = desugar(*body, importer, file_dir)?;
            Ok(desugar_let(name, imported, b))
        },
    }
}

} // verus!
