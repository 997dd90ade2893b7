use little_lamb::eval::common::{beta, de_bruijn, EvalError};
use little_lamb::eval::small_step::{eval, step_normal, term_size};
use little_lamb::import::Importer;
use little_lamb::lexer::tokenize;
use little_lamb::parser::parse;
use little_lamb::syntax::desugar;
use little_lamb::Term;

/// Helper function to parse and convert to de Bruijn indices
fn parse_and_de_bruijn(src: &str) -> Result<Term, EvalError> {
    let tokens = tokenize(src).unwrap();
    let ast = parse(&tokens).unwrap();
    let expr = desugar(ast, &mut Importer::new(), Some("."))?;
    de_bruijn(&expr, &mut Vec::new())
}

/// Helper function to parse and evaluate an expression
fn src_eval(src: &str) -> Result<Term, EvalError> {
    let term = parse_and_de_bruijn(src)?;
    eval(term)
}

#[test]
fn eval_test_desugar_zero() {
    let src = r"0";
    let result = parse_and_de_bruijn(src).unwrap();
    println!("Desugared 0: {} -> {}", src, result.to_display_string());
    let expected = parse_and_de_bruijn(r"\f x. x").unwrap();
    assert_eq!(result, expected);
}

#[test]
fn eval_test_desugar_two() {
    let src = r"2";
    let result = parse_and_de_bruijn(src).unwrap();
    println!("Desugared 2: {} -> {}", src, result.to_display_string());
    let expected = parse_and_de_bruijn(r"\f x. (f (f x))").unwrap();
    assert_eq!(result, expected);
}

#[test]
fn eval_test_de_bruijn_identity() {
    let src = r"\x. x";
    let result = parse_and_de_bruijn(src).unwrap();
    println!("Identity: {} -> {}", src, result.to_display_string());
    assert_eq!(result.to_display_string(), r"\x. x#0");
}

#[test]
fn eval_test_de_bruijn_nested() {
    let src = r"\x. \y. x";
    let result = parse_and_de_bruijn(src).unwrap();
    println!("Nested: {} -> {}", src, result.to_display_string());
    assert_eq!(result.to_display_string(), r"\x. \y. x#1");
}

#[test]
fn eval_test_de_bruijn_simple_application() {
    let src = r"(\x. x y)";
    let result = parse_and_de_bruijn(src);
    assert!(result.is_err());
    if let Err(EvalError::UndefinedVariable { name }) = result {
        assert_eq!(name, "y");
    }
}

#[test]
fn eval_test_de_bruijn_with_let() {
    let src = r"let id = \x. x in id";
    let result = parse_and_de_bruijn(src).unwrap();
    println!("Let expression: {} -> {}", src, result.to_display_string());
    assert_eq!(result.to_display_string(), r"(\id. id#0) (\x. x#0)");
}

#[test]
fn eval_test_de_bruijn_complex_nesting() {
    let src = r"\x. \x. x";
    let result = parse_and_de_bruijn(src).unwrap();
    println!("Complex nesting: {} -> {}", src, result.to_display_string());
    assert_eq!(result.to_display_string(), r"\x. \x. x#0");
}

#[test]
fn eval_test_subst_top_simple() {
    let body = Term::lambda("y", Term::var("x", 1));
    let arg = parse_and_de_bruijn(r"\z. z").unwrap();
    let result = beta(&body, &arg).0;
    println!(
        "Subst top: {} with {} -> {}",
        body.to_display_string(),
        arg.to_display_string(),
        result.to_display_string()
    );
    assert_eq!(result.to_display_string(), r"\y. \z. z#0");
}

#[test]
fn eval_test_subst_top_beta_reduction() {
    let param_ref = Term::var("x", 0);
    let arg = parse_and_de_bruijn(r"\y. y").unwrap();
    let result = beta(&param_ref, &arg).0;
    println!(
        "Beta reduction: {} with {} -> {}",
        param_ref.to_display_string(),
        arg.to_display_string(),
        result.to_display_string()
    );
    assert_eq!(result.to_display_string(), r"\y. y#0");
}

#[test]
fn step_normal_takes_the_leftmost_outermost_redex() {
    // (\x. x) ((\y. y) z): the outer redex goes first
    let inner = Term::apply(Term::lambda("y", Term::var("y", 0)), Term::var("z", 0));
    let term = Term::apply(Term::lambda("x", Term::var("x", 0)), inner);
    let next = step_normal(&term).unwrap();
    assert_eq!(next.to_display_string(), r"(\y. y#0) z#0");
    let last = step_normal(&next).unwrap();
    assert_eq!(last.to_display_string(), "z#0");
    assert!(step_normal(&last).is_none());
    assert_eq!(term_size(&term), 7);
}

#[test]
fn small_step_omega_diverges() {
    let omega = parse_and_de_bruijn(r"(\x. x x) (\x. x x)").unwrap();
    assert!(matches!(eval(omega), Err(EvalError::Divergence)));
}

#[test]
fn test_eval_identity() {
    let src = r"\x. x";
    let result = src_eval(src).unwrap();
    let expected = parse_and_de_bruijn(r"\x. x").unwrap();
    println!("Evaluated: {} -> {}", src, result.to_display_string());
    assert_eq!(result, expected);
}

#[test]
fn test_eval_application() {
    let src = r"let id = \x. x in let f = \y. y in (id f)";
    let result = src_eval(src).unwrap();
    let expected = parse_and_de_bruijn(r"\y. y").unwrap();
    println!("Evaluated: {} -> {}", src, result.to_display_string());
    assert_eq!(result, expected);
}

#[test]
fn test_eval_church_numeral_zero() {
    let src = r"\f x. x";
    let result = src_eval(src).unwrap();
    let expected = parse_and_de_bruijn(r"\f x. x").unwrap();
    println!("Evaluated: {} -> {}", src, result.to_display_string());
    assert_eq!(result, expected);
}

#[test]
fn test_eval_church_numeral_one() {
    let src = r"\f x. (f x)";
    let result = src_eval(src).unwrap();
    let expected = parse_and_de_bruijn(r"\f x. (f x)").unwrap();
    println!("Evaluated: {} -> {}", src, result.to_display_string());
    assert_eq!(result, expected);
}

#[test]
fn test_eval_higher_order_function() {
    let src = r"let twice = \f x. (f (f x)) in let id = \y. y in (twice id)";
    let result = src_eval(src).unwrap();
    let expected = parse_and_de_bruijn(r"\x. x").unwrap();
    println!("Evaluated: {} -> {}", src, result.to_display_string());
    assert_eq!(result, expected);
}

#[test]
fn test_eval_let_expression() {
    let src = r"let id = \x. x in let f = \y. y in (id f)";
    let result = src_eval(src).unwrap();
    let expected = parse_and_de_bruijn(r"\y. y").unwrap();
    println!("Evaluated: {} -> {}", src, result.to_display_string());
    assert_eq!(result, expected);
}

#[test]
fn test_eval_k_combinator() {
    let src = r"let k = \x y. x in let a = \z. z in (k a)";
    let result = src_eval(src).unwrap();
    let expected = parse_and_de_bruijn(r"\y. \z. z").unwrap();
    println!("Evaluated: {} -> {}", src, result.to_display_string());
    assert_eq!(result, expected);
}

#[test]
fn test_eval_s_combinator_partial() {
    let src = r"\x y z. (x z) (y z)";
    let result = src_eval(src).unwrap();
    let expected = parse_and_de_bruijn(r"\x y z. ((x z) (y z))").unwrap();
    println!("Evaluated: {} -> {}", src, result.to_display_string());
    assert_eq!(result, expected);
}

#[test]
fn test_eval_currying_example() {
    let src = r"
        let const = \x y. x in
        let one = \f x. (f x) in
        const one
    ";
    let result = src_eval(src).unwrap();
    let expected = parse_and_de_bruijn(r"\y. \f x. (f x)").unwrap();
    println!("Evaluated: {} -> {}", src, result.to_display_string());
    assert_eq!(result, expected);
}

#[test]
fn test_eval_complex_composition() {
    let src = r"let comp = \f g x. (f (g x)) in comp";
    let result = src_eval(src).unwrap();
    let expected = parse_and_de_bruijn(r"\f g x. (f (g x))").unwrap();
    println!("Evaluated: {} -> {}", src, result.to_display_string());
    assert_eq!(result, expected);
}

#[test]
fn test_eval_import_as_builtin() {
    let src = r"import I as id in id";
    let result = src_eval(src).unwrap();
    let expected = parse_and_de_bruijn(r"\x. x").unwrap();
    println!("Evaluated: {} -> {}", src, result.to_display_string());
    assert_eq!(result, expected);
}

#[test]
fn test_eval_import_as_builtin_boolean() {
    let src = r"
        import true, false, and, or, not in
        and (or false true) (not true)
    ";
    let result = src_eval(src).unwrap();
    let expected = parse_and_de_bruijn(r"\x y . y").unwrap();
    println!("Evaluated: {} -> {}", src, result.to_display_string());
    assert_eq!(result, expected);
}

#[test]
fn test_lib_pred() {
    let src = r"import pred in pred 3";
    let result = src_eval(src).unwrap();
    let expected = parse_and_de_bruijn(r"2").unwrap();
    println!("Evaluated: {} -> {}", src, result.to_display_string());
    assert_eq!(result, expected);
}

#[test]
fn test_lib_sub() {
    let src = r"import sub in sub 5 3";
    let result = src_eval(src).unwrap();
    let expected = parse_and_de_bruijn(r"2").unwrap();
    println!("Evaluated: {} -> {}", src, result.to_display_string());
    assert_eq!(result, expected);
}
