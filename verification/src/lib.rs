pub mod eval;
pub mod import;
pub mod laws;
pub mod lexer;
pub mod lexer_laws;
pub mod parser;
pub mod parser_laws;
pub mod print_laws;
pub mod syntax;
pub mod text;

use eval::common::{de_bruijn_spec, EvalError, EvalErrorView};
use eval::strategy::{eval_failure, evaluated, strategy_eval, EvalStrategy};
use import::{Importer, ResolutionView};
use lexer::{tokenize, tokenize_spec, LexerError};
use parser::{parse, parse_spec, ParserError};
use syntax::desugar::{desugar, desugar_spec};
use syntax::term::lemma_term_to_expr_view;
use syntax::TermView;
use vstd::prelude::*;

pub use syntax::{Expr, Term, TermInner};

verus! {

/// Why a program could not be run: it does not tokenize, it does not parse,
/// or it fails to import, convert or evaluate.
#[derive(Debug)]
pub enum ExecuteError {
    Lexer(LexerError),
    Parser(ParserError),
    Eval(EvalError),
}

pub enum ExecuteErrorView {
    Lexer(nat),
    Parser(nat),
    Eval(EvalErrorView),
}

impl View for ExecuteError {
    type V = ExecuteErrorView;

    open spec fn view(&self) -> ExecuteErrorView {
        match self {
            ExecuteError::Lexer(e) => ExecuteErrorView::Lexer(e.position as nat),
            ExecuteError::Parser(e) => ExecuteErrorView::Parser(e.position as nat),
            ExecuteError::Eval(e) => ExecuteErrorView::Eval(e@),
        }
    }
}

impl ExecuteError {
    /// The error message.
    pub fn to_display_string(&self) -> (s: String)
        ensures
            s@ == (match self {
                ExecuteError::Lexer(e) => "Lexer error at "@ + crate::text::decimal(e.position as nat),
                ExecuteError::Parser(e) => "Parser error at token "@ + crate::text::decimal(
                    e.position as nat,
                ),
                ExecuteError::Eval(e) => e@.display(),
            }),
    {
        match self {
            ExecuteError::Lexer(e) => e.to_display_string(),
            ExecuteError::Parser(e) => e.to_display_string(),
            ExecuteError::Eval(e) => e.to_display_string(),
        }
    }
}

/// A program up to evaluation: tokenized, parsed, desugared with the user
/// files `files` in directory `dir` to import from, and converted to de
/// Bruijn form; or the first step that fails.
pub open spec fn front_end(
    src: Seq<char>,
    files: Seq<(Seq<char>, Seq<char>)>,
    dir: Option<Seq<char>>,
) -> Result<TermView, ExecuteErrorView> {
    match tokenize_spec(src) {
        Err(p) => Err(ExecuteErrorView::Lexer(p)),
        Ok(ts) => match parse_spec(ts) {
            Err(q) => Err(ExecuteErrorView::Parser(q)),
            Ok(ast) => match desugar_spec(ast, files, seq![], dir).0 {
                Err(ie) => Err(ExecuteErrorView::Eval(EvalErrorView::Import(ie))),
                Ok(e) => match de_bruijn_spec(e, seq![]) {
                    Ok(t) => Ok(t),
                    Err(n) => Err(ExecuteErrorView::Eval(EvalErrorView::UndefinedVariable(n))),
                },
            },
        },
    }
}

/// The outcome of running a program with an evaluator: the front end's
/// error, or an evaluation result as the evaluator promises it, read back as
/// a named expression.
pub open spec fn executed(
    strategy: EvalStrategy,
    src: Seq<char>,
    files: Seq<(Seq<char>, Seq<char>)>,
    dir: Option<Seq<char>>,
    r: Result<Expr, ExecuteError>,
) -> bool {
    match front_end(src, files, dir) {
        Err(e) => r matches Err(x) && x@ == e,
        Ok(t) => {
            &&& match r {
                Ok(x) => exists|n: TermView| #[trigger] evaluated(strategy, t, n) && x@ == n.erase(),
                Err(x) => x matches ExecuteError::Eval(e) && eval_failure(strategy, t, e),
            }
            &&& match strategy_eval(strategy, t) {
                Ok(n) => r matches Ok(x) && x@ == n.erase(),
                Err(e) => r matches Err(x) && x@ == ExecuteErrorView::Eval(e),
            }
        },
    }
}

fn run_program(
    src: &str,
    importer: Importer,
    file_dir: Option<&str>,
    strategy: EvalStrategy,
) -> (r: Result<Expr, ExecuteError>)
    requires
        importer.wf(),
        importer@.stack == Seq::<ResolutionView>::empty(),
    ensures
        executed(strategy, src@, importer@.files, syntax::desugar::dir_view(file_dir), r),
{
    let mut importer = importer;
    let tokens = match tokenize(src) {
        Ok(t) => t,
        Err(e) => {
            return Err(ExecuteError::Lexer(e));
        },
    };
    let ast = match parse(tokens.as_slice()) {
        Ok(a) => a,
        Err(e) => {
            return Err(ExecuteError::Parser(e));
        },
    };
    let expr = match desugar(ast, &mut importer, file_dir) {
        Ok(e) => e,
        Err(e) => {
            return Err(ExecuteError::Eval(e));
        },
    };
    let term = match Term::try_from_expr(expr) {
        Ok(t) => t,
        Err(e) => {
            return Err(ExecuteError::Eval(e));
        },
    };
    let ghost t = term@;
    let result = match strategy.run(term) {
        Ok(n) => n,
        Err(e) => {
            return Err(ExecuteError::Eval(e));
        },
    };
    let ghost n = result@;
    let ghost whole = result;
    let expr = Expr::from(result);
    proof {
        lemma_term_to_expr_view(whole);
        assert(evaluated(strategy, t, n));
    }
    Ok(expr)
}

/// Runs a program with the default evaluator; only the library can be
/// imported.
pub fn execute_string(src: &str) -> (r: Result<Expr, ExecuteError>)
    ensures
        executed(EvalStrategy::Kn, src@, seq![], None, r),
{
    let importer = Importer::new();
    run_program(src, importer, None, EvalStrategy::Kn)
}

/// Runs a program with the given evaluator; only the library can be
/// imported.
pub fn execute_with_strategy(src: &str, eval_fn: EvalStrategy) -> (r: Result<Expr, ExecuteError>)
    ensures
        executed(eval_fn, src@, seq![], None, r),
{
    let importer = Importer::new();
    run_program(src, importer, None, eval_fn)
}

/// Runs a program that lies in directory `file_dir`, with the default
/// evaluator; `files` are the (path, source) pairs of the module files next
/// to it, which its imports find before the library.
pub fn execute_with_files(src: &str, files: Vec<(String, String)>, file_dir: &str) -> (r: Result<
    Expr,
    ExecuteError,
>)
    ensures
        executed(
            EvalStrategy::Kn,
            src@,
            import::pairs_view(files@),
            Some(file_dir@),
            r,
        ),
{
    let importer = Importer::with_files(files);
    run_program(src, importer, Some(file_dir), EvalStrategy::Kn)
}

} // verus!
