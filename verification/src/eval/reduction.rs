//! Normal forms and beta reduction of de Bruijn terms.
use super::common::beta_spec;
use crate::syntax::TermView;
use vstd::prelude::*;

verus! {

/// A term with no beta redex in it.
pub open spec fn is_normal(t: TermView) -> bool
    decreases t, 1nat,
{
    match t {
        TermView::Lambda { body, .. } => is_normal(*body),
        _ => is_neutral(t),
    }
}

/// A variable applied to normal forms: normal, and not a lambda.
pub open spec fn is_neutral(t: TermView) -> bool
    decreases t, 0nat,
{
    match t {
        TermView::Var { .. } => true,
        TermView::Apply { func, arg } => is_neutral(*func) && is_normal(*arg),
        TermView::Lambda { .. } => false,
    }
}

/// `u` is `t` with one beta redex, anywhere in it, contracted.
pub open spec fn one_step(t: TermView, u: TermView) -> bool
    decreases t,
{
    match t {
        TermView::Var { .. } => false,
        TermView::Lambda { param, body } => match u {
            TermView::Lambda { param: p2, body: b2 } => p2 == param && one_step(*body, *b2),
            _ => false,
        },
        TermView::Apply { func, arg } => {
            ||| (match *func {
                TermView::Lambda { body, .. } => u == beta_spec(*body, *arg).0,
                _ => false,
            })
            ||| (match u {
                TermView::Apply { func: f2, arg: a2 } => (one_step(*func, *f2) && *a2 == *arg) || (*f2
                    == *func && one_step(*arg, *a2)),
                _ => false,
            })
        },
    }
}

/// Each term of `s` steps to the next one.
pub open spec fn is_chain(s: Seq<TermView>) -> bool {
    forall|i: int| 0 <= i < s.len() - 1 ==> #[trigger] one_step(s[i], s[i + 1])
}

/// `t` reduces to `u` in zero or more steps.
pub open spec fn reduces(t: TermView, u: TermView) -> bool {
    exists|s: Seq<TermView>| s.len() > 0 && s[0] == t && s.last() == u && is_chain(s)
}

pub proof fn lemma_reduces_refl(t: TermView)
    ensures
        reduces(t, t),
{
    let s = seq![t];
    assert(is_chain(s));
}

pub proof fn lemma_reduces_step(t: TermView, u: TermView)
    requires
        one_step(t, u),
    ensures
        reduces(t, u),
{
    let s = seq![t, u];
    assert(is_chain(s)) by {
        assert forall|i: int| 0 <= i < s.len() - 1 implies #[trigger] one_step(s[i], s[i + 1]) by {
            assert(i == 0);
        }
    }
}

pub proof fn lemma_reduces_trans(a: TermView, b: TermView, c: TermView)
    requires
        reduces(a, b),
        reduces(b, c),
    ensures
        reduces(a, c),
{
    let s1 = choose|s: Seq<TermView>| s.len() > 0 && s[0] == a && s.last() == b && is_chain(s);
    let s2 = choose|s: Seq<TermView>| s.len() > 0 && s[0] == b && s.last() == c && is_chain(s);
    let s = s1 + s2.drop_first();
    assert(s.len() > 0 && s[0] == a && s.last() == c);
    assert(is_chain(s)) by {
        assert forall|i: int| 0 <= i < s.len() - 1 implies #[trigger] one_step(s[i], s[i + 1]) by {
            if i < s1.len() - 1 {
                assert(one_step(s1[i], s1[i + 1]));
            } else if i == s1.len() - 1 {
                assert(s[i] == b);
                assert(s[i + 1] == s2[1]);
                assert(one_step(s2[0], s2[1]));
            } else {
                let j = i - s1.len() + 1;
                assert(s[i] == s2[j]);
                assert(s[i + 1] == s2[j + 1]);
                assert(one_step(s2[j], s2[j + 1]));
            }
        }
    }
}

pub proof fn lemma_reduces_app_func(f: TermView, f2: TermView, a: TermView)
    requires
        reduces(f, f2),
    ensures
        reduces(
            TermView::Apply { func: Box::new(f), arg: Box::new(a) },
            TermView::Apply { func: Box::new(f2), arg: Box::new(a) },
        ),
{
    let s1 = choose|s: Seq<TermView>| s.len() > 0 && s[0] == f && s.last() == f2 && is_chain(s);
    let s = s1.map_values(|x: TermView| TermView::Apply { func: Box::new(x), arg: Box::new(a) });
    assert(is_chain(s)) by {
        assert forall|i: int| 0 <= i < s.len() - 1 implies #[trigger] one_step(s[i], s[i + 1]) by {
            assert(one_step(s1[i], s1[i + 1]));
        }
    }
}

pub proof fn lemma_reduces_app_arg(f: TermView, a: TermView, a2: TermView)
    requires
        reduces(a, a2),
    ensures
        reduces(
            TermView::Apply { func: Box::new(f), arg: Box::new(a) },
            TermView::Apply { func: Box::new(f), arg: Box::new(a2) },
        ),
{
    let s1 = choose|s: Seq<TermView>| s.len() > 0 && s[0] == a && s.last() == a2 && is_chain(s);
    let s = s1.map_values(|x: TermView| TermView::Apply { func: Box::new(f), arg: Box::new(x) });
    assert(is_chain(s)) by {
        assert forall|i: int| 0 <= i < s.len() - 1 implies #[trigger] one_step(s[i], s[i + 1]) by {
            assert(one_step(s1[i], s1[i + 1]));
        }
    }
}

pub proof fn lemma_reduces_lambda(p: Seq<char>, b: TermView, b2: TermView)
    requires
        reduces(b, b2),
    ensures
        reduces(
            TermView::Lambda { param: p, body: Box::new(b) },
            TermView::Lambda { param: p, body: Box::new(b2) },
        ),
{
    let s1 = choose|s: Seq<TermView>| s.len() > 0 && s[0] == b && s.last() == b2 && is_chain(s);
    let s = s1.map_values(|x: TermView| TermView::Lambda { param: p, body: Box::new(x) });
    assert(is_chain(s)) by {
        assert forall|i: int| 0 <= i < s.len() - 1 implies #[trigger] one_step(s[i], s[i + 1]) by {
            assert(one_step(s1[i], s1[i + 1]));
        }
    }
}

/// Normal forms do not step.
pub proof fn lemma_normal_no_step(t: TermView, u: TermView)
    requires
        is_normal(t),
    ensures
        !one_step(t, u),
    decreases t,
{
    match t {
        TermView::Var { .. } => {},
        TermView::Lambda { body, .. } => {
            if let TermView::Lambda { body: b2, .. } = u {
                lemma_normal_no_step(*body, *b2);
            }
        },
        TermView::Apply { func, arg } => {
            assert(is_neutral(t));
            assert(is_neutral(*func) && is_normal(*arg));
            lemma_neutral_normal(*func);
            if let TermView::Apply { func: f2, arg: a2 } = u {
                lemma_normal_no_step(*func, *f2);
                lemma_normal_no_step(*arg, *a2);
            }
        },
    }
}

/// A neutral term is normal.
pub proof fn lemma_neutral_normal(t: TermView)
    requires
        is_neutral(t),
    ensures
        is_normal(t),
{
    assert(t !is Lambda);
}

} // verus!
