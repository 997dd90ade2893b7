use little_lamb::eval::common::EvalError;
use little_lamb::eval::small_step;
use little_lamb::eval::small_step::step_normal;
use little_lamb::eval::{kn_eval, krivine_eval, substitution_eval};
use little_lamb::Term;

fn omega() -> Term {
    let w = Term::lambda("x", Term::apply(Term::var("x", 0), Term::var("x", 0)));
    Term::apply(w.clone(), w)
}

#[test]
fn kn_k_combinator_value() {
    // let k = \x y. x in let a = \z. z in k a
    let k = Term::lambda("x", Term::lambda("y", Term::var("x", 1)));
    let t = Term::apply(
        Term::lambda(
            "k",
            Term::apply(
                Term::lambda("a", Term::apply(Term::var("k", 1), Term::var("a", 0))),
                Term::lambda("z", Term::var("z", 0)),
            ),
        ),
        k,
    );
    let r = kn_eval(t).unwrap();
    assert!(r == Term::lambda("y", Term::lambda("z", Term::var("z", 0))));
}

#[test]
fn kn_gives_up_on_omega_after_the_step_limit() {
    assert!(matches!(kn_eval(omega()), Err(EvalError::StepLimitExceeded)));
}

#[test]
fn kn_reports_the_unbound_variable() {
    match kn_eval(Term::var("x", 0)) {
        Err(EvalError::UndefinedVariable { name }) => assert_eq!(name, "x"),
        _ => panic!("expected an unbound variable"),
    }
}

#[test]
fn kn_keeps_a_normal_application_of_variables() {
    // \w x y z. w x y z is normal
    let t = Term::lambda(
        "w",
        Term::lambda(
            "x",
            Term::lambda(
                "y",
                Term::lambda(
                    "z",
                    Term::apply(
                        Term::apply(Term::apply(Term::var("w", 3), Term::var("x", 2)), Term::var("y", 1)),
                        Term::var("z", 0),
                    ),
                ),
            ),
        ),
    );
    assert!(kn_eval(t.clone()).unwrap() == t);
}

#[test]
fn substitution_composition_value() {
    // let comp = \f g x. f (g x) in comp
    let c = Term::lambda(
        "f",
        Term::lambda(
            "g",
            Term::lambda("x", Term::apply(Term::var("f", 2), Term::apply(Term::var("g", 1), Term::var("x", 0)))),
        ),
    );
    let t = Term::apply(Term::lambda("comp", Term::var("comp", 0)), c.clone());
    assert!(substitution_eval(t).unwrap() == c);
}

#[test]
fn substitution_omega_diverges() {
    assert!(matches!(substitution_eval(omega()), Err(EvalError::Divergence)));
}

#[test]
fn small_step_eval_gives_divergence_on_omega() {
    assert!(matches!(small_step::eval(omega()), Err(EvalError::Divergence)));
}

#[test]
fn small_step_composition_value() {
    let t = Term::apply(
        Term::lambda("i", Term::var("i", 0)),
        Term::lambda("y", Term::apply(Term::lambda("z", Term::var("z", 0)), Term::var("y", 0))),
    );
    assert!(small_step::eval(t).unwrap() == Term::lambda("y", Term::var("y", 0)));
}

#[test]
fn krivine_currying_value() {
    // let const = \x y. x in let one = \f x. f x in const one
    let t = Term::apply(
        Term::lambda(
            "const",
            Term::apply(
                Term::lambda("one", Term::apply(Term::var("const", 1), Term::var("one", 0))),
                Term::lambda("f", Term::lambda("x", Term::apply(Term::var("f", 1), Term::var("x", 0)))),
            ),
        ),
        Term::lambda("x", Term::lambda("y", Term::var("x", 1))),
    );
    let r = krivine_eval(t).unwrap();
    assert!(r == Term::lambda("y", Term::lambda("f", Term::lambda("x", Term::apply(Term::var("f", 1), Term::var("x", 0))))));
}

#[test]
fn krivine_keeps_a_normal_application_of_variables() {
    // \w x y z. w x y z is normal and comes back unchanged
    let t = Term::lambda(
        "w",
        Term::lambda(
            "x",
            Term::lambda(
                "y",
                Term::lambda(
                    "z",
                    Term::apply(
                        Term::apply(Term::apply(Term::var("w", 3), Term::var("x", 2)), Term::var("y", 1)),
                        Term::var("z", 0),
                    ),
                ),
            ),
        ),
    );
    assert!(krivine_eval(t.clone()).unwrap() == t);
    assert!(substitution_eval(t.clone()).unwrap() == t);
}

#[test]
fn kn_keeps_a_lambda_argument_of_a_bound_variable() {
    // \f. f (\x. x) is normal and comes back unchanged
    let t = Term::lambda("f", Term::apply(Term::var("f", 0), Term::lambda("x", Term::var("x", 0))));
    assert!(kn_eval(t.clone()).unwrap() == t);
    assert!(krivine_eval(t.clone()).unwrap() == t);
}

#[test]
fn machines_give_up_on_omega() {
    assert!(matches!(krivine_eval(omega()), Err(EvalError::StepLimitExceeded)));
}

#[test]
fn machines_agree_on_nested_arguments() {
    // (\f. \z. f (f z)) (\y. y) reduces to \z. z
    let twice = Term::lambda("f", Term::lambda("z", Term::apply(Term::var("f", 1), Term::apply(Term::var("f", 1), Term::var("z", 0)))));
    let t = Term::apply(twice, Term::lambda("y", Term::var("y", 0)));
    let expected = Term::lambda("z", Term::var("z", 0));
    assert!(kn_eval(t.clone()).unwrap() == expected);
    assert!(krivine_eval(t.clone()).unwrap() == expected);
    assert!(substitution_eval(t).unwrap() == expected);
}

#[test]
fn y_applied_reaches_g_applied_to_the_self_application() {
    // Y g with g = \z. z: two normal-order steps give g (H H), H = \x. g (x x)
    let g = Term::lambda("z", Term::var("z", 0));
    let half = |f: Term| {
        Term::lambda("x", Term::apply(f, Term::apply(Term::var("x", 0), Term::var("x", 0))))
    };
    let y = Term::lambda("f", Term::apply(half(Term::var("f", 1)), half(Term::var("f", 1))));
    let hh = Term::apply(half(g.clone()), half(g.clone()));
    let one = step_normal(&Term::apply(y, g.clone())).unwrap();
    assert!(one == hh);
    let two = step_normal(&one).unwrap();
    assert!(two == Term::apply(g, hh));
}
