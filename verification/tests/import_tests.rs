use little_lamb::eval::EvalError;
use little_lamb::import::{get_lib_function_names, load_lib_function_as_term, ImportError, Importer};
use little_lamb::{execute_string, execute_with_files, Expr, Term};

#[test]
fn test_import_builtin() {
    let mut importer = Importer::new();
    let expr = importer.import("I", Some(".")).unwrap();
    let expected = Expr::lambda("x", Expr::var("x"));
    assert_eq!(expr, expected);
}

#[test]
fn import_missing_module_is_io_error_with_joined_path() {
    let mut importer = Importer::new();
    match importer.import("nosuch", Some("dir")) {
        Err(EvalError::Import(ImportError::Io(path))) => assert_eq!(path, "dir/nosuch.lil"),
        other => panic!("unexpected {:?}", other),
    }
    match importer.import("nosuch", None) {
        Err(EvalError::Import(ImportError::Io(path))) => assert_eq!(path, "nosuch.lil"),
        other => panic!("unexpected {:?}", other),
    }
}

#[test]
fn import_user_file_shadows_library() {
    let files = vec![("src/I.lil".to_string(), r"\a b. b".to_string())];
    let mut importer = Importer::with_files(files);
    let expr = importer.import("I", Some("src")).unwrap();
    let expected = Expr::lambda("a", Expr::lambda("b", Expr::var("b")));
    assert_eq!(expr, expected);
    // without a directory only the library is searched
    let expr = importer.import("I", None).unwrap();
    assert_eq!(expr, Expr::lambda("x", Expr::var("x")));
}

#[test]
fn import_cycle_is_reported() {
    let files = vec![
        ("p/a.lil".to_string(), "import b in b".to_string()),
        ("p/b.lil".to_string(), "import a in a".to_string()),
    ];
    let mut importer = Importer::with_files(files);
    match importer.import("a", Some("p")) {
        Err(EvalError::Import(ImportError::CircularDependency(cycle))) => {
            assert_eq!(cycle.to_display_string(), "p/a.lil -> p/b.lil -> p/a.lil");
            let err = EvalError::Import(ImportError::CircularDependency(cycle));
            assert_eq!(
                err.to_display_string(),
                "Circular dependency detected: p/a.lil -> p/b.lil -> p/a.lil"
            );
        }
        other => panic!("unexpected {:?}", other),
    }
}

#[test]
fn long_cycle_is_shown_on_several_lines() {
    let files = vec![
        ("a_rather_long_directory_name/first_module.lil".to_string(), "import second_module in second_module".to_string()),
        ("a_rather_long_directory_name/second_module.lil".to_string(), "import first_module in first_module".to_string()),
    ];
    let mut importer = Importer::with_files(files);
    match importer.import("first_module", Some("a_rather_long_directory_name")) {
        Err(EvalError::Import(ImportError::CircularDependency(cycle))) => {
            assert_eq!(
                cycle.to_display_string(),
                "\n   a_rather_long_directory_name/first_module.lil\n-> a_rather_long_directory_name/second_module.lil\n-> a_rather_long_directory_name/first_module.lil"
            );
        }
        other => panic!("unexpected {:?}", other),
    }
}

#[test]
fn import_of_bad_module_reports_its_path() {
    let files = vec![
        ("d/lex.lil".to_string(), "\\x. x %".to_string()),
        ("d/syn.lil".to_string(), "\\x. ".to_string()),
    ];
    let mut importer = Importer::with_files(files);
    match importer.import("lex", Some("d")) {
        Err(EvalError::Import(ImportError::Tokenize(_, path))) => assert_eq!(path, "d/lex.lil"),
        other => panic!("unexpected {:?}", other),
    }
    let mut importer = Importer::with_files(vec![("d/syn.lil".to_string(), "\\x. ".to_string())]);
    match importer.import("syn", Some("d")) {
        Err(EvalError::Import(ImportError::Parse(_, path))) => assert_eq!(path, "d/syn.lil"),
        other => panic!("unexpected {:?}", other),
    }
}

#[test]
fn library_names_are_sorted_and_load() {
    let names = get_lib_function_names();
    assert_eq!(names.len(), 19);
    for w in names.windows(2) {
        assert!(w[0] < w[1]);
    }
    for name in names {
        assert!(load_lib_function_as_term(name).is_ok(), "{}", name);
    }
    let k = load_lib_function_as_term("K").unwrap();
    assert_eq!(k, Term::lambda("x", Term::lambda("y", Term::var("x", 1))));
    assert!(load_lib_function_as_term("nosuch").is_err());
}

#[test]
fn library_module_with_leading_slash_is_found() {
    let mut importer = Importer::new();
    let expr = importer.import("/I", None).unwrap();
    assert_eq!(expr, Expr::lambda("x", Expr::var("x")));
}

#[test]
fn program_with_user_module() {
    let files = vec![("lib/two.lil".to_string(), "2".to_string())];
    let result = execute_with_files("import two, add in add two two", files, "lib").unwrap();
    assert_eq!(result.to_nat(), Some(4));
}

#[test]
fn execute_string_reports_each_stage() {
    assert_eq!(
        execute_string("\\x. x %").unwrap_err().to_display_string(),
        "Lexer error at 6"
    );
    assert!(execute_string("\\x.").unwrap_err().to_display_string().starts_with("Parser error at token "));
    assert_eq!(
        execute_string("\\x. y").unwrap_err().to_display_string(),
        "Undefined variable y"
    );
    assert_eq!(
        execute_string("import nothing in nothing").unwrap_err().to_display_string(),
        "Failed to read nothing.lil"
    );
}
