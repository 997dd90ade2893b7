//! A full-reducing KN machine: normal-order reduction driven by a stack of
//! frames, with the focus either being evaluated or, once normal, returned
//! to the frame on top.
use super::common::{beta, beta_spec, eval_view, EvalError, EvalErrorView};
use super::reduction::{
    is_neutral, is_normal, lemma_neutral_normal, lemma_reduces_app_arg, lemma_reduces_app_func,
    lemma_reduces_lambda, lemma_reduces_refl, lemma_reduces_step, lemma_reduces_trans, one_step,
    reduces,
};
use crate::syntax::{Term, TermInner, TermView};
use vstd::prelude::*;

verus! {

/// The number of machine steps after which evaluation gives up.
pub const STEP_LIMIT: usize = 1_000_000;

/// What waits for the focus: an argument to apply it to, a normal neutral
/// head to apply to it, or a lambda to rebuild around it.
pub enum Frame {
    ApplyArg(Term),
    NeutralHead(Term),
    BuildLambda(String),
}

/// The model of a frame.
pub enum FrameView {
    ApplyArg(TermView),
    NeutralHead(TermView),
    BuildLambda(Seq<char>),
}

pub open spec fn frame_view(f: Frame) -> FrameView {
    match f {
        Frame::ApplyArg(a) => FrameView::ApplyArg(a@),
        Frame::NeutralHead(h) => FrameView::NeutralHead(h@),
        Frame::BuildLambda(p) => FrameView::BuildLambda(p@),
    }
}

pub open spec fn frames_view(s: Seq<Frame>) -> Seq<FrameView> {
    s.map_values(|f: Frame| frame_view(f))
}

/// The term that the frames `s` (the top last) make around `t`.
pub open spec fn plug(s: Seq<FrameView>, t: TermView) -> TermView
    decreases s.len(),
{
    if s.len() == 0 {
        t
    } else {
        match s.last() {
            FrameView::ApplyArg(a) => plug(
                s.drop_last(),
                TermView::Apply { func: Box::new(t), arg: Box::new(a) },
            ),
            FrameView::NeutralHead(h) => plug(
                s.drop_last(),
                TermView::Apply { func: Box::new(h), arg: Box::new(t) },
            ),
            FrameView::BuildLambda(p) => plug(
                s.drop_last(),
                TermView::Lambda { param: p, body: Box::new(t) },
            ),
        }
    }
}

/// The frames as the machine keeps them: a waiting head is neutral, and no
/// lambda waits to be rebuilt right above an argument.
pub open spec fn frames_ok(s: Seq<FrameView>) -> bool {
    &&& forall|i: int| 0 <= i < s.len() ==> (#[trigger] s[i] matches FrameView::NeutralHead(h) ==> is_neutral(h))
    &&& forall|i: int| 0 < i < s.len() ==> (#[trigger] s[i] is BuildLambda ==> s[i - 1] !is ApplyArg)
}

/// One transition of the machine, or its outcome.
pub enum Transition {
    Next(TermView, bool, Seq<FrameView>),
    Done(Result<TermView, EvalErrorView>),
}

/// One step of the KN machine on the focus, whether it is being returned
/// (normal already) or evaluated, and the frames: an application pushes its
/// argument; a lambda is applied to the argument on top, or else is gone
/// under; a variable is returned. A returned term is the result when no
/// frame is left; it becomes the waiting head of the argument on top, which
/// is evaluated next; it is applied to the waiting head on top; or it is
/// the body of the lambda on top.
pub open spec fn kn_step(focus: TermView, returning: bool, s: Seq<FrameView>) -> Transition {
    if !returning {
        match focus {
            TermView::Apply { func, arg } => Transition::Next(*func, false, s.push(FrameView::ApplyArg(*arg))),
            TermView::Lambda { param, body } => if s.len() > 0 && s.last() is ApplyArg {
                Transition::Next(beta_spec(*body, s.last()->ApplyArg_0).0, false, s.drop_last())
            } else {
                Transition::Next(*body, false, s.push(FrameView::BuildLambda(param)))
            },
            TermView::Var { .. } => Transition::Next(focus, true, s),
        }
    } else if s.len() == 0 {
        Transition::Done(Ok(focus))
    } else {
        match s.last() {
            FrameView::ApplyArg(a) => Transition::Next(
                a,
                false,
                s.drop_last().push(FrameView::NeutralHead(focus)),
            ),
            FrameView::NeutralHead(h) => Transition::Next(
                TermView::Apply { func: Box::new(h), arg: Box::new(focus) },
                true,
                s.drop_last(),
            ),
            FrameView::BuildLambda(p) => Transition::Next(
                TermView::Lambda { param: p, body: Box::new(focus) },
                true,
                s.drop_last(),
            ),
        }
    }
}

/// The machine run from the given state, the `step`th transition next; it
/// gives up once `step` reaches `STEP_LIMIT`.
pub open spec fn kn_run(focus: TermView, returning: bool, s: Seq<FrameView>, step: nat) -> Result<
    TermView,
    EvalErrorView,
>
    decreases STEP_LIMIT - step,
{
    if step >= STEP_LIMIT {
        Err(EvalErrorView::StepLimitExceeded)
    } else {
        match kn_step(focus, returning, s) {
            Transition::Done(r) => r,
            Transition::Next(f, r, s2) => kn_run(f, r, s2, step + 1),
        }
    }
}

/// The first variable of `t`, from the left, that none of its binders and
/// none of `n` binders around it binds.
pub open spec fn first_unbound(t: TermView, n: nat) -> Option<Seq<char>>
    decreases t,
{
    match t {
        TermView::Var { name, index } => if index < n {
            None
        } else {
            Some(name)
        },
        TermView::Lambda { body, .. } => first_unbound(*body, n + 1),
        TermView::Apply { func, arg } => match first_unbound(*func, n) {
            Some(x) => Some(x),
            None => first_unbound(*arg, n),
        },
    }
}

/// What the KN machine gives for `t`: its first unbound variable as an
/// error, or else its run from `t` being evaluated with no frame.
pub open spec fn kn_eval(t: TermView) -> Result<TermView, EvalErrorView> {
    match first_unbound(t, 0) {
        Some(name) => Err(EvalErrorView::UndefinedVariable(name)),
        None => kn_run(t, false, seq![], 0),
    }
}

pub proof fn lemma_first_unbound(t: TermView, n: nat)
    ensures
        first_unbound(t, n) is None <==> t.scoped(n),
        n > usize::MAX ==> first_unbound(t, n) is None,
    decreases t,
{
    match t {
        TermView::Var { .. } => {},
        TermView::Lambda { body, .. } => lemma_first_unbound(*body, n + 1),
        TermView::Apply { func, arg } => {
            lemma_first_unbound(*func, n);
            lemma_first_unbound(*arg, n);
        },
    }
}

/// The first unbound variable of `t` with `n` binders around it.
fn find_unbound(t: &Term, n: usize) -> (r: Option<String>)
    ensures
        match first_unbound(t@, n as nat) {
            Some(x) => r matches Some(y) && y@ == x,
            None => r is None,
        },
    decreases t@,
{
    match t.inner() {
        TermInner::Var { name, index } => if *index < n {
            None
        } else {
            Some(name.clone())
        },
        TermInner::Lambda { body, .. } => if n == usize::MAX {
            proof {
                lemma_first_unbound(body@, (n + 1) as nat);
            }
            None
        } else {
            find_unbound(body, n + 1)
        },
        TermInner::Apply { func, arg } => match find_unbound(func, n) {
            Some(x) => Some(x),
            None => find_unbound(arg, n),
        },
    }
}

/// Reduction inside the frames: if `t` reduces to `u`, the term the frames
/// make around `t` reduces to the one they make around `u`.
pub proof fn lemma_plug_reduces(s: Seq<FrameView>, t: TermView, u: TermView)
    requires
        reduces(t, u),
    ensures
        reduces(plug(s, t), plug(s, u)),
    decreases s.len(),
{
    if s.len() > 0 {
        match s.last() {
            FrameView::ApplyArg(a) => {
                lemma_reduces_app_func(t, u, a);
                lemma_plug_reduces(
                    s.drop_last(),
                    TermView::Apply { func: Box::new(t), arg: Box::new(a) },
                    TermView::Apply { func: Box::new(u), arg: Box::new(a) },
                );
            },
            FrameView::NeutralHead(h) => {
                lemma_reduces_app_arg(h, t, u);
                lemma_plug_reduces(
                    s.drop_last(),
                    TermView::Apply { func: Box::new(h), arg: Box::new(t) },
                    TermView::Apply { func: Box::new(h), arg: Box::new(u) },
                );
            },
            FrameView::BuildLambda(p) => {
                lemma_reduces_lambda(p, t, u);
                lemma_plug_reduces(
                    s.drop_last(),
                    TermView::Lambda { param: p, body: Box::new(t) },
                    TermView::Lambda { param: p, body: Box::new(u) },
                );
            },
        }
    }
}

proof fn lemma_plug_push(s: Seq<FrameView>, f: FrameView, t: TermView)
    ensures
        plug(s.push(f), t) == match f {
            FrameView::ApplyArg(a) => plug(s, TermView::Apply { func: Box::new(t), arg: Box::new(a) }),
            FrameView::NeutralHead(h) => plug(s, TermView::Apply { func: Box::new(h), arg: Box::new(t) }),
            FrameView::BuildLambda(p) => plug(s, TermView::Lambda { param: p, body: Box::new(t) }),
        },
{
    assert(s.push(f).drop_last() =~= s);
}

proof fn lemma_frames_view_push(s: Seq<Frame>, f: Frame)
    ensures
        frames_view(s.push(f)) == frames_view(s).push(frame_view(f)),
{
    assert(frames_view(s.push(f)) =~= frames_view(s).push(frame_view(f)));
}

proof fn lemma_frames_view_pop(s: Seq<Frame>)
    requires
        s.len() > 0,
    ensures
        frames_view(s.drop_last()) == frames_view(s).drop_last(),
        frames_view(s).last() == frame_view(s.last()),
        frames_view(s).len() == s.len(),
{
    assert(frames_view(s.drop_last()) =~= frames_view(s).drop_last());
}

proof fn lemma_frames_ok_pop(s: Seq<FrameView>)
    requires
        frames_ok(s),
        s.len() > 0,
    ensures
        frames_ok(s.drop_last()),
        s.last() matches FrameView::NeutralHead(h) ==> is_neutral(h),
        s.last() is BuildLambda ==> (s.len() == 1 || s.drop_last().last() !is ApplyArg),
{
    let s2 = s.drop_last();
    assert(s.last() == s[s.len() - 1]);
    assert forall|i: int| 0 < i < s2.len() && #[trigger] s2[i] is BuildLambda implies s2[i - 1] !is ApplyArg by {
        assert(s2[i] == s[i]);
        assert(s2[i - 1] == s[i - 1]);
    }
    assert forall|i: int| 0 <= i < s2.len() && #[trigger] s2[i] is NeutralHead implies is_neutral(s2[i]->NeutralHead_0) by {
        assert(s2[i] == s[i]);
    }
}

proof fn lemma_frames_ok_push(s: Seq<FrameView>, f: FrameView)
    requires
        frames_ok(s),
        f matches FrameView::NeutralHead(h) ==> is_neutral(h),
        f is BuildLambda ==> (s.len() == 0 || s.last() !is ApplyArg),
    ensures
        frames_ok(s.push(f)),
{
    let s2 = s.push(f);
    assert forall|i: int| 0 < i < s2.len() && #[trigger] s2[i] is BuildLambda implies s2[i - 1] !is ApplyArg by {
        if i < s.len() {
            assert(s2[i] == s[i]);
            assert(s2[i - 1] == s[i - 1]);
        } else {
            assert(s2[i - 1] == s.last());
        }
    }
    assert forall|i: int| 0 <= i < s2.len() && #[trigger] s2[i] is NeutralHead implies is_neutral(s2[i]->NeutralHead_0) by {
        if i < s.len() {
            assert(s2[i] == s[i]);
        }
    }
}

fn top_is_apply_arg(stack: &Vec<Frame>) -> (r: bool)
    ensures
        r == (stack@.len() > 0 && stack@.last() is ApplyArg),
{
    if stack.len() == 0 {
        false
    } else {
        matches!(stack[stack.len() - 1], Frame::ApplyArg(_))
    }
}

/// Evaluates a term to normal form with the KN machine.
#[verifier::rlimit(40)]
pub fn eval(term: Term) -> (r: Result<Term, EvalError>)
    ensures
        r matches Ok(t) ==> is_normal(t@) && reduces(term@, t@),
        r matches Err(e) ==> (e is StepLimitExceeded || (e is UndefinedVariable && !term@.scoped(0))),
        eval_view(r) == kn_eval(term@),
{
    proof {
        lemma_first_unbound(term@, 0);
    }
    if let Some(name) = find_unbound(&term, 0) {
        return Err(EvalError::UndefinedVariable { name });
    }
    let ghost t0 = term@;
    let mut focus = term;
    let mut returning = false;
    let mut stack: Vec<Frame> = Vec::new();
    let mut step: usize = 0;
    proof {
        lemma_reduces_refl(t0);
        assert(frames_view(stack@) =~= Seq::<FrameView>::empty());
    }
    while step < STEP_LIMIT
        invariant
            t0 == term@,
            first_unbound(t0, 0) is None,
            reduces(t0, plug(frames_view(stack@), focus@)),
            frames_ok(frames_view(stack@)),
            returning ==> is_normal(focus@),
            returning && stack@.len() > 0 && stack@.last() is ApplyArg ==> is_neutral(focus@),
            kn_eval(t0) == kn_run(focus@, returning, frames_view(stack@), step as nat),
        decreases STEP_LIMIT - step,
    {
        let ghost f0 = focus@;
        let ghost s0 = frames_view(stack@);
        let ghost r0 = returning;
        let ghost st0 = stack@;
        if stack.len() > 0 {
            proof {
                lemma_frames_view_pop(st0);
                lemma_frames_ok_pop(s0);
            }
        }
        if !returning {
            let next = match focus.inner() {
                TermInner::Apply { func, arg } => {
                    let fr = Frame::ApplyArg(arg.clone());
                    proof {
                        lemma_frames_view_push(st0, fr);
                        lemma_plug_push(s0, frame_view(fr), func@);
                        lemma_frames_ok_push(s0, frame_view(fr));
                    }
                    stack.push(fr);
                    func.clone()
                },
                TermInner::Lambda { param, body } => {
                    if top_is_apply_arg(&stack) {
                        match stack.pop() {
                            Some(Frame::ApplyArg(a)) => {
                                let (b, _) = beta(body, &a);
                                proof {
                                    let app = TermView::Apply { func: Box::new(f0), arg: Box::new(a@) };
                                    assert(s0.drop_last().push(FrameView::ApplyArg(a@)) =~= s0);
                                    lemma_plug_push(s0.drop_last(), FrameView::ApplyArg(a@), f0);
                                    assert(one_step(app, b@));
                                    lemma_reduces_step(app, b@);
                                    lemma_plug_reduces(s0.drop_last(), app, b@);
                                    lemma_reduces_trans(t0, plug(s0, f0), plug(s0.drop_last(), b@));
                                }
                                b
                            },
                            _ => focus.clone(),
                        }
                    } else {
                        let fr = Frame::BuildLambda(param.clone());
                        proof {
                            lemma_frames_view_push(st0, fr);
                            lemma_plug_push(s0, frame_view(fr), body@);
                            lemma_frames_ok_push(s0, frame_view(fr));
                        }
                        stack.push(fr);
                        body.clone()
                    }
                },
                TermInner::Var { .. } => {
                    proof {
                        assert(is_neutral(f0));
                        lemma_neutral_normal(f0);
                    }
                    returning = true;
                    focus.clone()
                },
            };
            focus = next;
        } else {
            match stack.pop() {
                None => {
                    proof {
                        assert(s0 =~= Seq::<FrameView>::empty());
                    }
                    return Ok(focus);
                },
                Some(Frame::ApplyArg(a)) => {
                    let h = focus;
                    let fr = Frame::NeutralHead(h);
                    proof {
                        lemma_frames_view_push(stack@, fr);
                        lemma_plug_push(s0.drop_last(), FrameView::ApplyArg(a@), f0);
                        lemma_plug_push(s0.drop_last(), frame_view(fr), a@);
                        assert(s0.drop_last().push(FrameView::ApplyArg(a@)) =~= s0);
                        lemma_frames_ok_push(s0.drop_last(), frame_view(fr));
                    }
                    stack.push(fr);
                    focus = a;
                    returning = false;
                },
                Some(Frame::NeutralHead(h)) => {
                    proof {
                        lemma_plug_push(s0.drop_last(), FrameView::NeutralHead(h@), f0);
                        assert(s0.drop_last().push(FrameView::NeutralHead(h@)) =~= s0);
                    }
                    focus = Term::apply(h, focus);
                    proof {
                        assert(is_neutral(focus@));
                        lemma_neutral_normal(focus@);
                    }
                },
                Some(Frame::BuildLambda(p)) => {
                    proof {
                        lemma_plug_push(s0.drop_last(), FrameView::BuildLambda(p@), f0);
                        assert(s0.drop_last().push(FrameView::BuildLambda(p@)) =~= s0);
                    }
                    focus = Term::lambda(p.as_str(), focus);
                },
            }
        }
        proof {
            assert(kn_step(f0, r0, s0) == Transition::Next(focus@, returning, frames_view(stack@)));
        }
        step += 1;
    }
    Err(EvalError::StepLimitExceeded)
}

} // verus!
