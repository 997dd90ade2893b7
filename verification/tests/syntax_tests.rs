use little_lamb::import::Importer;
use little_lamb::lexer::tokenize;
use little_lamb::parser::parse;
use little_lamb::syntax::desugar;
use little_lamb::syntax::Ast;
use little_lamb::{Expr, Term};

fn tokenize_and_parse(src: &str) -> Ast {
    let tokens = tokenize(src).unwrap();
    parse(&tokens).unwrap()
}

/// Helper function to parse a string into an Expr
fn parse_expr(src: &str) -> Expr {
    let tokens = tokenize(src).unwrap();
    let ast = parse(&tokens).unwrap();
    desugar(ast, &mut Importer::new(), Some(".")).unwrap()
}

#[test]
fn test_term_equal() {
    let t1 = Term::var("x", 0);
    let t2 = Term::var("y", 0);
    let t3 = Term::var("x", 1);
    assert_eq!(t1, t2);
    assert_ne!(t1, t3);

    let l1 = Term::lambda("x", Term::var("x", 0));
    let l2 = Term::lambda("y", Term::var("y", 0));
    let l3 = Term::lambda("x", Term::var("x", 1));
    assert_eq!(l1, l2);
    assert_ne!(l1, l3);

    let a1 = Term::apply(Term::lambda("x", Term::var("x", 0)), Term::var("y", 0));
    let a2 = Term::apply(Term::lambda("z", Term::var("z", 0)), Term::var("w", 0));
    let a3 = Term::apply(Term::lambda("x", Term::var("x", 1)), Term::var("y", 0));
    assert_eq!(a1, a2);
    assert_ne!(a1, a3);
}

#[test]
fn test_lambda() {
    let expr = r"\x. x";
    let parsed = tokenize_and_parse(expr);
    let expected = Ast::lambda("x", Ast::var("x"));
    assert_eq!(parsed, expected);
}

#[test]
fn test_lambda_currying() {
    let expr = r"\x y. x";
    let parsed = tokenize_and_parse(expr);
    let expected = Ast::lambda("x", Ast::lambda("y", Ast::var("x")));
    assert_eq!(parsed, expected);
}

#[test]
fn test_multiple_lines() {
    let expr = r"
            \x
            . x
        ";
    let parsed = tokenize_and_parse(expr);
    let expected = Ast::lambda("x", Ast::var("x"));
    assert_eq!(parsed, expected);
}

#[test]
fn test_application() {
    let expr = r"\x y. x y";
    let parsed = tokenize_and_parse(expr);
    let expected = Ast::lambda(
        "x",
        Ast::lambda("y", Ast::apply(Ast::var("x"), Ast::var("y"))),
    );
    assert_eq!(parsed, expected);
}

#[test]
fn test_deep_application() {
    let expr = r"\x y z. x y z";
    let parsed = tokenize_and_parse(expr);
    let expected = Ast::lambda(
        "x",
        Ast::lambda(
            "y",
            Ast::lambda(
                "z",
                Ast::apply(Ast::apply(Ast::var("x"), Ast::var("y")), Ast::var("z")),
            ),
        ),
    );
    assert_eq!(parsed, expected);
}

#[test]
fn test_let_binding() {
    let expr = r"
            let id = \x. x in
            \id. id
        ";
    let parsed = tokenize_and_parse(expr);
    let expected = Ast::let_binding(
        "id",
        Ast::lambda("x", Ast::var("x")),
        Ast::lambda("id", Ast::var("id")),
    );
    assert_eq!(parsed, expected);
}

#[test]
fn test_let_binding_with_comma_trailing() {
    let expr_comma = r"
            let
                I = \x. x,
                K = \x y. x,
            in
            K I
        ";
    let expr_nested = r"
            let I = \x. x in
            let K = \x y. x in
            K I
        ";
    let parsed_comma = tokenize_and_parse(expr_comma);
    let parsed_nested = tokenize_and_parse(expr_nested);
    assert_eq!(parsed_comma, parsed_nested);
}

#[test]
fn test_let_binding_with_comma_leading() {
    let expr_comma = r"
            let
            , I = \x. x
            , K = \x y. x
            in
            K I
        ";
    let expr_nested = r"
            let I = \x. x in
            let K = \x y. x in
            K I
        ";
    let parsed_comma = tokenize_and_parse(expr_comma);
    let parsed_nested = tokenize_and_parse(expr_nested);
    assert_eq!(parsed_comma, parsed_nested);
}

#[test]
fn test_import() {
    let expr = r"
            import I in
            \x. I x
        ";
    let parsed = tokenize_and_parse(expr);
    let expected = Ast::import(
        "I",
        "I",
        Ast::lambda("x", Ast::apply(Ast::var("I"), Ast::var("x"))),
    );
    assert_eq!(parsed, expected);
}

#[test]
fn test_import_as() {
    let expr = r"
            import I as id in
            \x. id x
        ";
    let parsed = tokenize_and_parse(expr);
    let expected = Ast::import(
        "I",
        "id",
        Ast::lambda("x", Ast::apply(Ast::var("id"), Ast::var("x"))),
    );
    assert_eq!(parsed, expected);
}

#[test]
fn test_import_multiple() {
    let expr_comma = r"
            import I as id, K in
            \x y. id (K x y)
        ";
    let expr_nested = r"
            import I as id in
            import K in
            \x y. id (K x y)
        ";
    let parsed_comma = tokenize_and_parse(expr_comma);
    let parsed_nested = tokenize_and_parse(expr_nested);
    assert_eq!(parsed_comma, parsed_nested);
}

#[test]
fn test_nat() {
    let expr = r"3";
    let parsed = tokenize_and_parse(expr);
    let expected = Ast::natural(3);
    assert_eq!(parsed, expected);
}

#[test]
fn test_not_nat() {
    let expr = r"\a1 . 1";
    let parsed = tokenize_and_parse(expr);
    let expected = Ast::lambda("a1", Ast::natural(1));
    assert_eq!(parsed, expected);
}

#[test]
fn test_parens() {
    let expr = r"((\x. (x)))";
    let parsed = tokenize_and_parse(expr);
    let expected = Ast::lambda("x", Ast::var("x"));
    assert_eq!(parsed, expected);
}

#[test]
fn test_comments() {
    let expr = r"
            -- this is a comment
            let id = \x. x in -- another comment
            \id. id --end comment
        ";
    let parsed = tokenize_and_parse(expr);
    let expected = Ast::let_binding(
        "id",
        Ast::lambda("x", Ast::var("x")),
        Ast::lambda("id", Ast::var("id")),
    );
    assert_eq!(parsed, expected);
}

#[test]
fn test_expr_to_nat_zero() {
    let zero = parse_expr(r"\f x. x");
    assert_eq!(zero.to_nat(), Some(0));
    assert_eq!(zero.to_readable_string(), "0");
}

#[test]
fn test_expr_to_nat_three() {
    let three = parse_expr(r"\f x. f (f (f x))");
    assert_eq!(three.to_nat(), Some(3));
    assert_eq!(three.to_readable_string(), "3");
}

#[test]
fn test_expr_to_lib_function_k_or_true() {
    let k_expr = parse_expr(r"\x y. x");
    assert_eq!(k_expr.to_lib_function(), Some("K"));
    assert_eq!(k_expr.to_readable_string(), "K");
}

#[test]
fn test_expr_to_nat_zero_or_false() {
    // \x y. y is both Church numeral 0 and false
    // We prioritize the natural number interpretation
    let zero_or_false = parse_expr(r"\x y. y");
    assert_eq!(zero_or_false.to_nat(), Some(0));
    assert_eq!(zero_or_false.to_readable_string(), "0");
}

#[test]
fn test_expr_regualar_display() {
    let not_numeral = parse_expr(r"\x y. y x");
    assert_eq!(not_numeral.to_nat(), None);
    assert_eq!(not_numeral.to_readable_string(), "\\x . \\y . y x");
}
