use little_lamb::eval::common::{beta, de_bruijn, EvalError};
use little_lamb::eval::{kn_eval, krivine_eval, substitution_eval};
use little_lamb::import::Importer;
use little_lamb::lexer::tokenize;
use little_lamb::parser::parse;
use little_lamb::syntax::desugar;
use little_lamb::Term;

/// Helper function to parse and convert to de Bruijn indices
fn parse_and_de_bruijn(src: &str) -> Result<Term, EvalError> {
    let tokens = tokenize(src).unwrap();
    let ast = parse(&tokens).unwrap();
    let expr = desugar(ast, &mut Importer::new(), Some("."))?;
    de_bruijn(&expr, &mut Vec::new())
}

type EvalFn = fn(Term) -> Result<Term, EvalError>;

#[test]
fn substitution_test_subst_top_simple() {
    // (\x. \y. x) applied to (\z. z): the body \y. x#1 with x#1 replaced
    let body = Term::lambda("y", Term::var("x", 1));
    let arg = parse_and_de_bruijn(r"\z. z").unwrap();

    let (result, non_reducing) = beta(&body, &arg);
    println!(
        "Subst top: {} with {} -> {}",
        body.to_display_string(),
        arg.to_display_string(),
        result.to_display_string()
    );

    assert_eq!(result.to_display_string(), r"\y. \z. z#0");
    assert!(!non_reducing);
}

#[test]
fn substitution_test_subst_top_beta_reduction() {
    // (\x. x) applied to (\y. y)
    let param_ref = Term::var("x", 0);
    let arg = parse_and_de_bruijn(r"\y. y").unwrap();

    let (result, non_reducing) = beta(&param_ref, &arg);
    println!(
        "Beta reduction: {} with {} -> {}",
        param_ref.to_display_string(),
        arg.to_display_string(),
        result.to_display_string()
    );

    assert_eq!(result.to_display_string(), r"\y. y#0");
    assert!(!non_reducing);
}

#[test]
fn tests_test_desugar_zero() {
    let src = r"0";
    let result = parse_and_de_bruijn(src).unwrap();
    println!("Desugared 0: {} -> {}", src, result.to_display_string());
    let expected = parse_and_de_bruijn(r"\f x. x").unwrap();
    assert_eq!(result, expected);
}

#[test]
fn tests_test_desugar_two() {
    let src = r"2";
    let result = parse_and_de_bruijn(src).unwrap();
    println!("Desugared 2: {} -> {}", src, result.to_display_string());
    let expected = parse_and_de_bruijn(r"\f x. (f (f x))").unwrap();
    assert_eq!(result, expected);
}

#[test]
fn tests_test_de_bruijn_identity() {
    // \x. x should become \x. x#0
    let src = r"\x. x";
    let result = parse_and_de_bruijn(src).unwrap();
    println!("Identity: {} -> {}", src, result.to_display_string());

    assert_eq!(result.to_display_string(), r"\x. x#0");
}

#[test]
fn tests_test_de_bruijn_nested() {
    // \x. \y. x should become \x. \y. x#1
    let src = r"\x. \y. x";
    let result = parse_and_de_bruijn(src).unwrap();
    println!("Nested: {} -> {}", src, result.to_display_string());

    assert_eq!(result.to_display_string(), r"\x. \y. x#1");
}

#[test]
fn tests_test_de_bruijn_simple_application() {
    let src = r"(\x. x y)";
    let result = parse_and_de_bruijn(src);

    assert!(result.is_err());
    if let Err(EvalError::UndefinedVariable { name }) = result {
        assert_eq!(name, "y");
    }
}

#[test]
fn tests_test_de_bruijn_with_let() {
    let src = r"let id = \x. x in id";
    let result = parse_and_de_bruijn(src).unwrap();
    println!("Let expression: {} -> {}", src, result.to_display_string());

    assert_eq!(result.to_display_string(), r"(\id. id#0) (\x. x#0)");
}

#[test]
fn tests_test_de_bruijn_complex_nesting() {
    let src = r"\x. \x. x";
    let result = parse_and_de_bruijn(src).unwrap();
    println!("Complex nesting: {} -> {}", src, result.to_display_string());

    assert_eq!(result.to_display_string(), r"\x. \x. x#0");
}

fn check_eval(eval_fn: EvalFn, src: &str, expected: &str) {
    let term = parse_and_de_bruijn(src).unwrap();
    let result = eval_fn(term).unwrap();
    let expected = parse_and_de_bruijn(expected).unwrap();
    println!("Evaluated: {} -> {}", src, result.to_display_string());
    assert_eq!(result, expected);
}

#[test]
fn test_eval_identity_substitution() {
    check_eval(substitution_eval, r"\x. x", r"\x. x");
}

#[test]
fn test_eval_identity_krivine() {
    check_eval(krivine_eval, r"\x. x", r"\x. x");
}

#[test]
fn test_eval_identity_kn() {
    check_eval(kn_eval, r"\x. x", r"\x. x");
}

#[test]
fn test_eval_application_substitution() {
    check_eval(substitution_eval, r"let id = \x. x in let f = \y. y in (id f)", r"\y. y");
}

#[test]
fn test_eval_application_krivine() {
    check_eval(krivine_eval, r"let id = \x. x in let f = \y. y in (id f)", r"\y. y");
}

#[test]
fn test_eval_application_kn() {
    check_eval(kn_eval, r"let id = \x. x in let f = \y. y in (id f)", r"\y. y");
}

#[test]
fn test_eval_church_numeral_zero_substitution() {
    check_eval(substitution_eval, r"\f x. x", r"\f x. x");
}

#[test]
fn test_eval_church_numeral_zero_krivine() {
    check_eval(krivine_eval, r"\f x. x", r"\f x. x");
}

#[test]
fn test_eval_church_numeral_zero_kn() {
    check_eval(kn_eval, r"\f x. x", r"\f x. x");
}

#[test]
fn test_eval_church_numeral_one_substitution() {
    check_eval(substitution_eval, r"\f x. (f x)", r"\f x. (f x)");
}

#[test]
fn test_eval_church_numeral_one_krivine() {
    check_eval(krivine_eval, r"\f x. (f x)", r"\f x. (f x)");
}

#[test]
fn test_eval_church_numeral_one_kn() {
    check_eval(kn_eval, r"\f x. (f x)", r"\f x. (f x)");
}

#[test]
fn test_eval_higher_order_function_substitution() {
    check_eval(substitution_eval, r"let twice = \f x. (f (f x)) in let id = \y. y in (twice id)", r"\x. x");
}

#[test]
fn test_eval_higher_order_function_krivine() {
    check_eval(krivine_eval, r"let twice = \f x. (f (f x)) in let id = \y. y in (twice id)", r"\x. x");
}

#[test]
fn test_eval_higher_order_function_kn() {
    check_eval(kn_eval, r"let twice = \f x. (f (f x)) in let id = \y. y in (twice id)", r"\x. x");
}

#[test]
fn test_eval_let_expression_substitution() {
    check_eval(substitution_eval, r"let id = \x. x in let f = \y. y in (id f)", r"\y. y");
}

#[test]
fn test_eval_let_expression_krivine() {
    check_eval(krivine_eval, r"let id = \x. x in let f = \y. y in (id f)", r"\y. y");
}

#[test]
fn test_eval_let_expression_kn() {
    check_eval(kn_eval, r"let id = \x. x in let f = \y. y in (id f)", r"\y. y");
}

#[test]
fn test_eval_k_combinator_substitution() {
    check_eval(substitution_eval, r"let k = \x y. x in let a = \z. z in (k a)", r"\y. \z. z");
}

#[test]
fn test_eval_k_combinator_krivine() {
    check_eval(krivine_eval, r"let k = \x y. x in let a = \z. z in (k a)", r"\y. \z. z");
}

#[test]
fn test_eval_k_combinator_kn() {
    check_eval(kn_eval, r"let k = \x y. x in let a = \z. z in (k a)", r"\y. \z. z");
}

#[test]
fn test_eval_s_combinator_partial_substitution() {
    check_eval(substitution_eval, r"\x y z. (x z) (y z)", r"\x y z. ((x z) (y z))");
}

#[test]
fn test_eval_s_combinator_partial_krivine() {
    check_eval(krivine_eval, r"\x y z. (x z) (y z)", r"\x y z. ((x z) (y z))");
}

#[test]
fn test_eval_s_combinator_partial_kn() {
    check_eval(kn_eval, r"\x y z. (x z) (y z)", r"\x y z. ((x z) (y z))");
}

#[test]
fn test_eval_currying_example_substitution() {
    check_eval(substitution_eval, r"
        let const = \x y. x in
        let one = \f x. (f x) in
        const one
    ", r"\y. \f x. (f x)");
}

#[test]
fn test_eval_currying_example_krivine() {
    check_eval(krivine_eval, r"
        let const = \x y. x in
        let one = \f x. (f x) in
        const one
    ", r"\y. \f x. (f x)");
}

#[test]
fn test_eval_currying_example_kn() {
    check_eval(kn_eval, r"
        let const = \x y. x in
        let one = \f x. (f x) in
        const one
    ", r"\y. \f x. (f x)");
}

#[test]
fn test_eval_complex_composition_substitution() {
    check_eval(substitution_eval, r"let comp = \f g x. (f (g x)) in comp", r"\f g x. (f (g x))");
}

#[test]
fn test_eval_complex_composition_krivine() {
    check_eval(krivine_eval, r"let comp = \f g x. (f (g x)) in comp", r"\f g x. (f (g x))");
}

#[test]
fn test_eval_complex_composition_kn() {
    check_eval(kn_eval, r"let comp = \f g x. (f (g x)) in comp", r"\f g x. (f (g x))");
}

#[test]
fn test_eval_import_as_builtin_substitution() {
    check_eval(substitution_eval, r"import I as id in id", r"\x. x");
}

#[test]
fn test_eval_import_as_builtin_krivine() {
    check_eval(krivine_eval, r"import I as id in id", r"\x. x");
}

#[test]
fn test_eval_import_as_builtin_kn() {
    check_eval(kn_eval, r"import I as id in id", r"\x. x");
}

#[test]
fn test_eval_import_as_builtin_boolean_substitution() {
    check_eval(substitution_eval, r"
        import true, false, and, or, not in
        and (or false true) (not true)
    ", r"\x y . y");
}

#[test]
fn test_eval_import_as_builtin_boolean_krivine() {
    check_eval(krivine_eval, r"
        import true, false, and, or, not in
        and (or false true) (not true)
    ", r"\x y . y");
}

#[test]
fn test_eval_import_as_builtin_boolean_kn() {
    check_eval(kn_eval, r"
        import true, false, and, or, not in
        and (or false true) (not true)
    ", r"\x y . y");
}

#[test]
fn test_lib_pred_substitution() {
    check_eval(substitution_eval, r"import pred in pred 3", r"2");
}

#[test]
fn test_lib_pred_krivine() {
    check_eval(krivine_eval, r"import pred in pred 3", r"2");
}

#[test]
fn test_lib_pred_kn() {
    check_eval(kn_eval, r"import pred in pred 3", r"2");
}

#[test]
fn test_lib_sub_substitution() {
    check_eval(substitution_eval, r"import sub in sub 5 3", r"2");
}

#[test]
fn test_lib_sub_krivine() {
    check_eval(krivine_eval, r"import sub in sub 5 3", r"2");
}

#[test]
fn test_lib_sub_kn() {
    check_eval(kn_eval, r"import sub in sub 5 3", r"2");
}
