use little_lamb::eval::common::{beta, de_bruijn, shift, subst};
use little_lamb::eval::{kn_eval, krivine_eval, substitution_eval, EvalError, EvalStrategy};
use little_lamb::import::Importer;
use little_lamb::lexer::tokenize;
use little_lamb::parser::parse;
use little_lamb::syntax::desugar;
use little_lamb::{execute_string, execute_with_files, execute_with_strategy, Expr, ExecuteError, Term};

fn parse_expr(src: &str) -> Expr {
    let tokens = tokenize(src).unwrap();
    let ast = parse(&tokens).unwrap();
    desugar(ast, &mut Importer::new(), None).unwrap()
}

#[test]
fn numerals_read_back() {
    for n in 0..30usize {
        assert_eq!(Expr::natural(n).to_nat(), Some(n));
    }
    assert_eq!(Expr::natural(4).to_display_string(), "\\f . \\x . f (f (f (f x)))");
}

#[test]
fn de_bruijn_form_converts_back() {
    for src in [r"\x. x", r"\f g x. f (g x)", r"\x. \x. x", r"let id = \x. x in id id", "3"] {
        let expr = parse_expr(src);
        let term = de_bruijn(&expr, &mut Vec::new()).unwrap();
        assert_eq!(Expr::from(term), expr);
    }
}

#[test]
fn full_depth_display_is_the_display() {
    let e = parse_expr(r"\f x. (\y. y) (f (f x)) x");
    assert_eq!(e.to_string_with_depth(100), e.to_display_string());
    // its height is 6
    assert_eq!(e.to_string_with_depth(6), e.to_display_string());
    assert_eq!(e.to_string_with_depth(1), "\\f . ...");
    assert_eq!(e.to_string_with_depth(0), "...");
}

#[test]
fn term_equality_is_an_equivalence() {
    let a = Term::lambda("x", Term::apply(Term::var("x", 0), Term::var("x", 0)));
    let b = Term::lambda("y", Term::apply(Term::var("y", 0), Term::var("y", 0)));
    let c = Term::lambda("z", Term::apply(Term::var("q", 0), Term::var("r", 0)));
    let d = Term::lambda("z", Term::apply(Term::var("q", 0), Term::var("r", 1)));
    assert_eq!(a, a.clone());
    assert_eq!(a, b);
    assert_eq!(b, a);
    assert_eq!(b, c);
    assert_eq!(a, c);
    assert_ne!(a, d);
}

#[test]
fn closed_programs_never_fail_on_unbound_variables() {
    let ok = execute_string(r"import add in add 2 3").unwrap();
    assert_eq!(ok.to_nat(), Some(5));
    match execute_string(r"\x. y") {
        Err(ExecuteError::Eval(EvalError::UndefinedVariable { name })) => assert_eq!(name, "y"),
        other => panic!("unexpected {:?}", other),
    }
}

#[test]
fn evaluators_return_normal_forms() {
    let src = r"import mult, succ in mult 2 (succ 2)";
    for strategy in [EvalStrategy::Substitution, EvalStrategy::Krivine, EvalStrategy::Kn] {
        let result = execute_with_strategy(src, strategy).unwrap();
        assert_eq!(result.to_nat(), Some(6));
        assert_eq!(result.to_readable_string(), "6");
    }
}

#[test]
fn letrec_builds_the_fixed_point() {
    let e = parse_expr(r"letrec f = \x. x in f");
    assert_eq!(
        e.to_display_string(),
        "(\\f . f) ((\\f . (\\x . f (x x)) (\\x . f (x x))) (\\f . \\x . x))"
    );
}

#[test]
fn substitution_evaluator_detects_divergence() {
    let omega = parse_expr(r"(\x. x x) (\x. x x)");
    let term = de_bruijn(&omega, &mut Vec::new()).unwrap();
    assert!(matches!(substitution_eval(term), Err(EvalError::Divergence)));
}

#[test]
fn step_limit_is_reported() {
    let grow = parse_expr(r"(\x. x x x) (\x. x x x)");
    let term = de_bruijn(&grow, &mut Vec::new()).unwrap();
    assert!(matches!(kn_eval(term.clone()), Err(EvalError::StepLimitExceeded)));
    assert!(matches!(krivine_eval(term), Err(EvalError::StepLimitExceeded)));
}

#[test]
fn shift_and_subst_exact_values() {
    let t = Term::lambda("y", Term::apply(Term::var("y", 0), Term::var("x", 1)));
    assert_eq!(shift(&t, 2, 0).to_display_string(), r"\y. y#0 x#3");
    assert_eq!(shift(&t, 2, 2).to_display_string(), r"\y. y#0 x#1");
    let (r, count) = subst(&t, 0, &Term::var("z", 5));
    assert_eq!(r.to_display_string(), r"\y. y#0 z#6");
    assert_eq!(count, 1);
    let dup = Term::apply(Term::var("x", 0), Term::var("x", 0));
    let (_, copies) = beta(&dup, &Term::var("w", 0));
    assert!(copies);
}

#[test]
fn readable_display_uses_library_names_inside() {
    let e = parse_expr(r"\g. g (\x y. x) (\f x. f x)");
    assert_eq!(e.to_readable_string_with_depth(20), "\\g . g K 1");
    assert_eq!(e.to_readable_string(), "\\g . g (\\x . \\y . x) (\\f . \\x . f x)");
}

#[test]
fn error_messages() {
    assert_eq!(EvalError::StepLimitExceeded.to_display_string(), "Maximum evaluation steps exceeded");
    assert_eq!(EvalError::Divergence.to_display_string(), "Evaluation likely diverged");
}

#[test]
fn doubled_white_space_gives_the_same_tokens() {
    let base = "let id = \\x. x in\n  id id";
    let more = "let  id =  \\x. x in\n\n    id id";
    assert_eq!(tokenize(base).unwrap(), tokenize(more).unwrap());
    assert_eq!(tokenize("\\x. % x").unwrap_err().position, 4);
    assert_eq!(tokenize("\\x.  % x").unwrap_err().position, 5);
    let wide = format!("let{}id = \\x. x in\n  id id", " ".repeat(9));
    assert_eq!(tokenize(base).unwrap(), tokenize(&wide).unwrap());
    assert_eq!(tokenize(&format!("\\x.{}% x", " ".repeat(6))).unwrap_err().position, 9);
}

#[test]
fn trailing_comment_is_ignored() {
    let base = "\\x. x";
    let commented = "\\x. x -- the identity";
    assert_eq!(tokenize(base).unwrap(), tokenize(commented).unwrap());
    assert_eq!(tokenize("").unwrap_err().position, 0);
    assert_eq!(tokenize(" --c").unwrap_err().position, 4);
}

fn parse_src(src: &str) -> little_lamb::syntax::Ast {
    parse(&tokenize(src).unwrap()).unwrap()
}

#[test]
fn several_parameters_are_nested_lambdas() {
    assert_eq!(parse_src(r"\x y z. y"), parse_src(r"\x. \y z. y"));
    assert_eq!(parse_src(r"\x y z. y"), parse_src(r"\x. \y. \z. y"));
}

#[test]
fn comma_bindings_are_nested_bindings() {
    assert_eq!(
        parse_src("letrec f = \\x. f x, g = f in g"),
        parse_src("letrec f = \\x. f x in letrec g = f in g")
    );
    assert_eq!(
        parse_src("import I as id, K in id K"),
        parse_src("import I as id in import K in id K")
    );
    assert_eq!(parse_src("let , a = 1 , in a"), parse_src("let a = 1 in a"));
}

#[test]
fn tokens_are_written_back() {
    let tokens = tokenize("letrec f = \\x. (f 12), import a as b from in").unwrap();
    let shown: Vec<String> = tokens.iter().map(|t| t.to_display_string()).collect();
    assert_eq!(
        shown,
        vec!["letrec", "f", "=", "\\", "x", ".", "(", "f", "12", ")", ",", "import", "a", "as", "b", "from", "in"]
    );
    assert_eq!(tokens[0].clone(), tokens[0]);
    assert_ne!(tokens[1], tokens[2]);
}

#[test]
fn printed_expressions_read_back() {
    for src in [
        r"\x. x",
        r"\f x. f (f x)",
        r"\x y z. (x z) (y z)",
        r"\a. (\b. b a) (\c. c) a",
        r"\g. g (\x. x) (\y. \z. z y)",
    ] {
        let e = parse_expr(src);
        let shown = e.to_display_string();
        assert_eq!(parse_expr(&shown), e, "{}", shown);
    }
}

#[test]
fn shifting_up_and_down_gives_the_term_back() {
    let t = Term::lambda("y", Term::apply(Term::var("y", 0), Term::apply(Term::var("x", 1), Term::var("z", 4))));
    for cutoff in 0..3usize {
        for by in 0..4isize {
            let up = shift(&t, by, cutoff);
            let back = shift(&up, -by, cutoff);
            assert_eq!(back.to_display_string(), t.to_display_string());
        }
        assert_eq!(shift(&t, 0, cutoff).to_display_string(), t.to_display_string());
    }
    assert_eq!(shift(&t, 3, 1).to_display_string(), r"\y. y#0 (x#1 z#7)");
    assert_eq!(shift(&t, 1, 0).to_display_string(), r"\y. y#0 (x#2 z#5)");
}

#[test]
fn readme_examples() {
    let forms = [
        "let I = \\x . x in\nlet K = \\x y . x in\nK I K",
        "let\n  I = \\x . x,\n  K = \\x y . x, -- trailing comma is optional\nin\nK I K",
        "let\n, I = \\x . x\n, K = \\x y . x\nin\nK I K",
    ];
    for src in forms {
        let result = execute_string(src).unwrap();
        assert_eq!(result.to_readable_string(), "I");
    }
    let imported = execute_string(
        "import I in        -- import identity combinator from std lib\nimport K as const in   -- import with alias\nimport add, succ in  -- import multiple modules\nI const",
    )
    .unwrap();
    assert_eq!(imported.to_readable_string(), "K");
    assert_eq!(execute_string("import add in\nadd 2 3").unwrap().to_nat(), Some(5));
    assert_eq!(execute_string("\\x . x -- this is a comment").unwrap().to_readable_string(), "I");
    let church_false = Term::lambda("x", Term::lambda("y", Term::var("y", 0)));
    let anded = execute_string("import and in\nand true false").unwrap();
    assert!(Term::try_from_expr(anded).unwrap() == church_false);
}

#[test]
fn boolean_literals_lex_parse_and_desugar() {
    let ts = tokenize("true false").unwrap();
    assert_eq!(ts.len(), 2);
    assert_eq!(ts[0].to_display_string(), "true");
    assert_eq!(ts[1].to_display_string(), "false");
    let ast = parse(&tokenize("f true").unwrap()).unwrap();
    assert!(ast == little_lamb::syntax::Ast::apply(little_lamb::syntax::Ast::var("f"), little_lamb::syntax::Ast::boolean(true)));
    let mut importer = Importer::new();
    let e = desugar(parse(&tokenize("true").unwrap()).unwrap(), &mut importer, None).unwrap();
    assert_eq!(e.to_display_string(), Expr::boolean(true).to_display_string());
    assert!(Term::try_from_expr(e).unwrap() == Term::lambda("x", Term::lambda("y", Term::var("x", 1))));
    let imported = execute_string("import true, false, not in not false").unwrap();
    assert!(Term::try_from_expr(imported).unwrap() == Term::lambda("x", Term::lambda("y", Term::var("x", 1))));
}

#[test]
fn a_directory_without_module_files_runs_like_a_string() {
    for src in ["import add in add 2 3", "import K as const in const", "let I = \\x . x in I I"] {
        let from_dir = execute_with_files(src, Vec::new(), "examples").unwrap();
        let plain = execute_string(src).unwrap();
        assert_eq!(from_dir, plain);
    }
    assert!(execute_with_files("nope", Vec::new(), "examples").is_err());
    assert!(execute_string("nope").is_err());
}

#[test]
fn conversion_fails_exactly_on_unbound_names() {
    let bound = Expr::lambda("x", Expr::apply(Expr::var("x"), Expr::var("y")));
    assert!(de_bruijn(&bound, &mut vec!["y".to_owned()]).is_ok());
    assert!(de_bruijn(&bound, &mut Vec::new()).is_err());
    let mut importer = Importer::new();
    let ast = parse(&tokenize("let a = \\x . x in letrec f = \\n . f n in a a").unwrap()).unwrap();
    assert!(desugar(ast, &mut importer, None).is_ok());
}

#[test]
fn beta_contracts_the_redex() {
    // body: x#0 (\y. x#1 w#2), argument a#5
    let body = Term::apply(
        Term::var("x", 0),
        Term::lambda("y", Term::apply(Term::var("x", 1), Term::var("w", 2))),
    );
    let (r, copied) = beta(&body, &Term::var("a", 5));
    assert_eq!(r.to_display_string(), r"a#5 (\y. a#6 w#1)");
    assert!(copied);
    let (r1, copied1) = beta(&Term::var("x", 0), &Term::var("a", 5));
    assert_eq!(r1.to_display_string(), "a#5");
    assert!(!copied1);
}
