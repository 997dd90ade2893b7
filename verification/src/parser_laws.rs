//! The parse of a token sequence from a position on depends only on the
//! tokens from there on; lambdas with several parameters are nested lambdas.
use crate::lexer::TokenView;
use crate::parser::{
    ident_names, ident_run_end, import_binding, import_items, is_tok, parse_apply_rest,
    parse_assign, parse_assign_items, parse_atom, parse_expr, parse_import, parse_lambda,
    parse_let, parse_spec, wrap_imports, wrap_lambdas, wrap_lets,
};
use crate::syntax::AstView;
use vstd::prelude::*;

verus! {

/// A parse result with its end position moved `k` tokens on.
pub open spec fn moved_parse<A>(r: Option<(A, nat)>, k: nat) -> Option<(A, nat)> {
    match r {
        Some((a, q)) => Some((a, q + k)),
        None => None,
    }
}

pub(crate) proof fn lemma_skip_index(ts: Seq<TokenView>, k: nat)
    requires
        k <= ts.len(),
    ensures
        ts.skip(k as int).len() == ts.len() - k,
        forall|j: int| 0 <= j < ts.len() - k ==> #[trigger] ts.skip(k as int)[j] == ts[j + k],
{
}

proof fn lemma_suffix_ident_run_end(ts: Seq<TokenView>, k: nat, p: nat)
    requires
        k + p <= ts.len(),
    ensures
        ident_run_end(ts, p + k) == ident_run_end(ts.skip(k as int), p) + k,
        ident_run_end(ts.skip(k as int), p) >= p,
        ident_run_end(ts.skip(k as int), p) <= ts.len() - k,
    decreases ts.len() - (p + k),
{
    lemma_skip_index(ts, k);
    if p + k < ts.len() && ts[(p + k) as int] is Ident {
        assert(ts.skip(k as int)[p as int] == ts[(p + k) as int]);
        lemma_suffix_ident_run_end(ts, k, p + 1);
    } else if p + k < ts.len() {
        assert(ts.skip(k as int)[p as int] == ts[(p + k) as int]);
    }
}

proof fn lemma_suffix_import_items(
    ts: Seq<TokenView>,
    k: nat,
    p: nat,
    acc: Seq<(Seq<char>, Seq<char>)>,
)
    requires
        k + p <= ts.len(),
    ensures
        import_items(ts, p + k, acc) == moved_parse(import_items(ts.skip(k as int), p, acc), k),
    decreases ts.len() - (p + k),
{
    let u = ts.skip(k as int);
    lemma_skip_index(ts, k);
    assert(import_binding(ts, p + k) == moved_parse(import_binding(u, p), k)) by {
        if p < u.len() {
            assert(u[p as int] == ts[(p + k) as int]);
        }
        if p + 1 < u.len() {
            assert(u[p + 1int] == ts[p + k + 1int]);
        }
        if p + 2 < u.len() {
            assert(u[p + 2int] == ts[p + k + 2int]);
        }
    }
    if let Some((b, q)) = import_binding(u, p) {
        if p < q <= u.len() {
            if q < u.len() {
                assert(u[q as int] == ts[(q + k) as int]);
            }
            if is_tok(u, q, TokenView::Comma) {
                lemma_suffix_import_items(ts, k, q + 1, acc.push(b));
            }
        }
    }
}

pub(crate) proof fn lemma_suffix_expr(ts: Seq<TokenView>, k: nat, p: nat)
    requires
        k + p <= ts.len(),
    ensures
        parse_expr(ts, p + k) == moved_parse(parse_expr(ts.skip(k as int), p), k),
    decreases ts.len() - (p + k), 4nat,
{
    let u = ts.skip(k as int);
    lemma_skip_index(ts, k);
    lemma_suffix_atom(ts, k, p);
    if p < u.len() {
        assert(u[p as int] == ts[(p + k) as int]);
    }
    match parse_atom(u, p) {
        Some((a, q)) => if p < q <= u.len() {
            lemma_suffix_apply_rest(ts, k, a, q);
        },
        None => if is_tok(u, p, TokenView::Lambda) {
            lemma_suffix_lambda(ts, k, p);
        } else if is_tok(u, p, TokenView::Let) {
            lemma_suffix_let(ts, k, p, false);
        } else if is_tok(u, p, TokenView::Letrec) {
            lemma_suffix_let(ts, k, p, true);
        } else if is_tok(u, p, TokenView::Import) {
            lemma_suffix_import(ts, k, p);
        },
    }
}

pub(crate) proof fn lemma_suffix_atom(ts: Seq<TokenView>, k: nat, p: nat)
    requires
        k + p <= ts.len(),
    ensures
        parse_atom(ts, p + k) == moved_parse(parse_atom(ts.skip(k as int), p), k),
    decreases ts.len() - (p + k), 0nat,
{
    let u = ts.skip(k as int);
    lemma_skip_index(ts, k);
    if p < u.len() {
        assert(u[p as int] == ts[(p + k) as int]);
        if u[p as int] is LParen {
            lemma_suffix_expr(ts, k, p + 1);
            if let Some((e, q)) = parse_expr(u, p + 1) {
                if q < u.len() {
                    assert(u[q as int] == ts[(q + k) as int]);
                }
            }
        }
    }
}

pub(crate) proof fn lemma_suffix_apply_rest(ts: Seq<TokenView>, k: nat, acc: AstView, p: nat)
    requires
        k + p <= ts.len(),
    ensures
        parse_apply_rest(ts, acc, p + k) == moved_parse(
            parse_apply_rest(ts.skip(k as int), acc, p),
            k,
        ),
    decreases ts.len() - (p + k), 1nat,
{
    let u = ts.skip(k as int);
    lemma_skip_index(ts, k);
    lemma_suffix_atom(ts, k, p);
    if let Some((a, q)) = parse_atom(u, p) {
        if p < q <= u.len() {
            lemma_suffix_apply_rest(ts, k, AstView::Apply { func: Box::new(acc), arg: Box::new(a) }, q);
        }
    }
}

proof fn lemma_suffix_lambda(ts: Seq<TokenView>, k: nat, p: nat)
    requires
        k + p <= ts.len(),
    ensures
        parse_lambda(ts, p + k) == moved_parse(parse_lambda(ts.skip(k as int), p), k),
    decreases ts.len() - (p + k), 2nat,
{
    let u = ts.skip(k as int);
    lemma_skip_index(ts, k);
    if p + 1 <= u.len() {
        lemma_suffix_ident_run_end(ts, k, p + 1);
        let q = ident_run_end(u, p + 1);
        if q < u.len() {
            assert(u[q as int] == ts[(q + k) as int]);
        }
        if p + 1 < q <= u.len() && is_tok(u, q, TokenView::Dot) {
            assert(ident_names(ts, p + 1 + k, q + k) =~= ident_names(u, p + 1, q));
            lemma_suffix_expr(ts, k, q + 1);
        }
    } else {
        assert(ident_run_end(ts, p + 1 + k) == p + 1 + k);
        assert(ident_run_end(u, p + 1) == p + 1);
    }
}

proof fn lemma_suffix_assign(ts: Seq<TokenView>, k: nat, p: nat)
    requires
        k + p <= ts.len(),
    ensures
        parse_assign(ts, p + k) == moved_parse(parse_assign(ts.skip(k as int), p), k),
    decreases ts.len() - (p + k), 0nat,
{
    let u = ts.skip(k as int);
    lemma_skip_index(ts, k);
    if p < u.len() {
        assert(u[p as int] == ts[(p + k) as int]);
    }
    if p + 1 < u.len() {
        assert(u[p + 1int] == ts[p + k + 1int]);
    }
    if p < u.len() && u[p as int] is Ident && is_tok(u, p + 1, TokenView::Equal) {
        lemma_suffix_expr(ts, k, p + 2);
    }
}

proof fn lemma_suffix_assign_items(
    ts: Seq<TokenView>,
    k: nat,
    p: nat,
    acc: Seq<(Seq<char>, AstView)>,
)
    requires
        k + p <= ts.len(),
    ensures
        parse_assign_items(ts, p + k, acc) == moved_parse(
            parse_assign_items(ts.skip(k as int), p, acc),
            k,
        ),
    decreases ts.len() - (p + k), 1nat,
{
    let u = ts.skip(k as int);
    lemma_skip_index(ts, k);
    lemma_suffix_assign(ts, k, p);
    if let Some((b, q)) = parse_assign(u, p) {
        if p < q <= u.len() {
            if q < u.len() {
                assert(u[q as int] == ts[(q + k) as int]);
            }
            if is_tok(u, q, TokenView::Comma) {
                lemma_suffix_assign_items(ts, k, q + 1, acc.push(b));
            }
        }
    }
}

proof fn lemma_suffix_let(ts: Seq<TokenView>, k: nat, p: nat, rec: bool)
    requires
        k + p <= ts.len(),
    ensures
        parse_let(ts, p + k, rec) == moved_parse(parse_let(ts.skip(k as int), p, rec), k),
    decreases ts.len() - (p + k), 2nat,
{
    let u = ts.skip(k as int);
    lemma_skip_index(ts, k);
    if p < u.len() {
        if p + 1 < u.len() {
            assert(u[p + 1int] == ts[p + k + 1int]);
        }
        let start = if is_tok(u, p + 1, TokenView::Comma) {
            p + 2
        } else {
            p + 1
        };
        lemma_suffix_assign_items(ts, k, start, seq![]);
        if let Some((bs, q)) = parse_assign_items(u, start, seq![]) {
            if q < u.len() {
                assert(u[q as int] == ts[(q + k) as int]);
            }
            if p < q && is_tok(u, q, TokenView::In) {
                lemma_suffix_expr(ts, k, q + 1);
            }
        }
    }
}

proof fn lemma_suffix_import(ts: Seq<TokenView>, k: nat, p: nat)
    requires
        k + p <= ts.len(),
    ensures
        parse_import(ts, p + k) == moved_parse(parse_import(ts.skip(k as int), p), k),
    decreases ts.len() - (p + k), 2nat,
{
    let u = ts.skip(k as int);
    lemma_skip_index(ts, k);
    if p < u.len() {
        if p + 1 < u.len() {
            assert(u[p + 1int] == ts[p + k + 1int]);
        }
        let start = if is_tok(u, p + 1, TokenView::Comma) {
            p + 2
        } else {
            p + 1
        };
        lemma_suffix_import_items(ts, k, start, seq![]);
        if let Some((bs, q)) = import_items(u, start, seq![]) {
            if q < u.len() {
                assert(u[q as int] == ts[(q + k) as int]);
            }
            if p < q && is_tok(u, q, TokenView::In) {
                lemma_suffix_expr(ts, k, q + 1);
            }
        }
    }
}

/// The lambda `\x` followed by the parameters and body in `tail`, when the
/// parameters of `tail` end with a dot: the parse of what follows the dot,
/// wrapped in the lambdas, ending `k` tokens later.
pub open spec fn nested_lambda(x: Seq<char>, tail: Seq<TokenView>, k: nat) -> Option<(AstView, nat)> {
    let q0 = ident_run_end(tail, 0);
    if is_tok(tail, q0, TokenView::Dot) {
        match parse_expr(tail, q0 + 1) {
            Some((body, r)) => Some(
                (
                    AstView::Lambda {
                        param: x,
                        body: Box::new(wrap_lambdas(ident_names(tail, 0, q0), body)),
                    },
                    r + k,
                ),
            ),
            None => None,
        }
    } else {
        None
    }
}

proof fn lemma_run_of_ident(tail: Seq<TokenView>)
    requires
        tail.len() > 0,
        tail[0] is Ident,
    ensures
        1 <= ident_run_end(tail, 0) <= tail.len(),
{
    assert(ident_run_end(tail, 0) == ident_run_end(tail, 1));
    lemma_suffix_ident_run_end(tail, 0, 1);
    assert(tail.skip(0) =~= tail);
}

#[verifier::rlimit(30)]
proof fn lemma_parse_curried(x: Seq<char>, tail: Seq<TokenView>)
    requires
        tail.len() > 0,
        tail[0] is Ident,
    ensures
        parse_expr(seq![TokenView::Lambda, TokenView::Ident(x)] + tail, 0) == nested_lambda(
            x,
            tail,
            2,
        ),
{
    let a = seq![TokenView::Lambda, TokenView::Ident(x)] + tail;
    assert(a.skip(2) =~= tail);
    lemma_skip_index(a, 2);
    lemma_suffix_ident_run_end(a, 2, 0);
    lemma_run_of_ident(tail);
    let q0 = ident_run_end(tail, 0);
    assert(ident_run_end(a, 1) == q0 + 2);
    if q0 < tail.len() {
        assert(a[q0 + 2int] == tail[q0 as int]);
    }
    assert(parse_atom(a, 0) is None);
    if is_tok(tail, q0, TokenView::Dot) {
        lemma_suffix_expr(a, 2, q0 + 1);
        let names = ident_names(tail, 0, q0);
        assert(ident_names(a, 1, q0 + 2) =~= seq![x] + names);
        assert((seq![x] + names).drop_first() =~= names);
    }
}

#[verifier::rlimit(30)]
proof fn lemma_parse_nested(x: Seq<char>, tail: Seq<TokenView>)
    requires
        tail.len() > 0,
        tail[0] is Ident,
    ensures
        parse_expr(
            seq![TokenView::Lambda, TokenView::Ident(x), TokenView::Dot, TokenView::Lambda] + tail,
            0,
        ) == nested_lambda(x, tail, 4),
{
    let b = seq![TokenView::Lambda, TokenView::Ident(x), TokenView::Dot, TokenView::Lambda] + tail;
    assert(b.skip(4) =~= tail);
    lemma_skip_index(b, 4);
    lemma_suffix_ident_run_end(b, 4, 0);
    lemma_run_of_ident(tail);
    let q0 = ident_run_end(tail, 0);
    assert(ident_run_end(b, 1) == 2) by {
        assert(ident_run_end(b, 1) == ident_run_end(b, 2));
    }
    if q0 < tail.len() {
        assert(b[q0 + 4int] == tail[q0 as int]);
    }
    assert(parse_atom(b, 0) is None);
    assert(parse_atom(b, 3) is None);
    assert(ident_names(b, 1, 2) =~= seq![x]);
    assert(seq![x].drop_first() =~= Seq::<Seq<char>>::empty());
    assert(ident_run_end(b, 4) == q0 + 4);
    if is_tok(tail, q0, TokenView::Dot) {
        lemma_suffix_expr(b, 4, q0 + 1);
        let names = ident_names(tail, 0, q0);
        assert(ident_names(b, 4, q0 + 4) =~= names);
        match parse_expr(tail, q0 + 1) {
            Some((body, r)) => {
                let inner = wrap_lambdas(names, body);
                assert(parse_expr(b, q0 + 5) == Some((body, r + 4)));
                assert(parse_lambda(b, 3) == Some((inner, r + 4)));
                assert(parse_expr(b, 3) == Some((inner, r + 4)));
                assert(wrap_lambdas(Seq::<Seq<char>>::empty(), inner) == inner);
                assert(seq![x][0] == x);
                assert(wrap_lambdas(seq![x], inner) == AstView::Lambda {
                    param: x,
                    body: Box::new(inner),
                });
                assert(parse_lambda(b, 0) == nested_lambda(x, tail, 4));
            },
            None => {
                assert(parse_lambda(b, 3) is None);
                assert(parse_expr(b, 3) is None);
            },
        }
    } else {
        assert(parse_lambda(b, 3) is None);
        assert(parse_expr(b, 3) is None);
    }
}

/// A lambda with several parameters is a lambda of the first parameter
/// around a lambda of the others: `\x y ... . body` parses as
/// `\x . \y ... . body` (a failure at a token after the parameters is
/// reported two tokens later in the longer form).
pub proof fn law_lambda_parameters_nest(x: Seq<char>, tail: Seq<TokenView>)
    requires
        tail.len() > 0,
        tail[0] is Ident,
    ensures
        parse_spec(seq![TokenView::Lambda, TokenView::Ident(x), TokenView::Dot, TokenView::Lambda]
            + tail) == (match parse_spec(seq![TokenView::Lambda, TokenView::Ident(x)] + tail) {
            Ok(a) => Ok(a),
            Err(p) => Err::<AstView, nat>(
                if p == 0 {
                    0
                } else {
                    p + 2
                },
            ),
        }),
{
    lemma_parse_curried(x, tail);
    lemma_parse_nested(x, tail);
}

proof fn lemma_progress_ident_run_end(ts: Seq<TokenView>, p: nat)
    requires
        p <= ts.len(),
    ensures
        p <= ident_run_end(ts, p) <= ts.len(),
    decreases ts.len() - p,
{
    if p < ts.len() && ts[p as int] is Ident {
        lemma_progress_ident_run_end(ts, p + 1);
    }
}

proof fn lemma_progress_import_items(ts: Seq<TokenView>, p: nat, acc: Seq<(Seq<char>, Seq<char>)>)
    requires
        p <= ts.len(),
    ensures
        import_items(ts, p, acc) matches Some((_, q)) ==> p <= q <= ts.len(),
    decreases ts.len() - p,
{
    if let Some((b, q)) = import_binding(ts, p) {
        if p < q <= ts.len() && is_tok(ts, q, TokenView::Comma) {
            lemma_progress_import_items(ts, q + 1, acc.push(b));
        }
    }
}

pub(crate) proof fn lemma_progress_expr(ts: Seq<TokenView>, p: nat)
    ensures
        parse_expr(ts, p) matches Some((_, q)) ==> p < q <= ts.len(),
    decreases ts.len() - p, 4nat,
{
    lemma_progress_atom(ts, p);
    match parse_atom(ts, p) {
        Some((a, q)) => if p < q <= ts.len() {
            lemma_progress_apply_rest(ts, a, q);
        },
        None => if is_tok(ts, p, TokenView::Lambda) {
            lemma_progress_lambda(ts, p);
        } else if is_tok(ts, p, TokenView::Let) {
            lemma_progress_let(ts, p, false);
        } else if is_tok(ts, p, TokenView::Letrec) {
            lemma_progress_let(ts, p, true);
        } else if is_tok(ts, p, TokenView::Import) {
            lemma_progress_import(ts, p);
        },
    }
}

pub(crate) proof fn lemma_progress_atom(ts: Seq<TokenView>, p: nat)
    ensures
        parse_atom(ts, p) matches Some((_, q)) ==> p < q <= ts.len(),
    decreases ts.len() - p, 0nat,
{
    if p < ts.len() && ts[p as int] is LParen {
        lemma_progress_expr(ts, p + 1);
    }
}

pub(crate) proof fn lemma_progress_apply_rest(ts: Seq<TokenView>, acc: AstView, p: nat)
    requires
        p <= ts.len(),
    ensures
        parse_apply_rest(ts, acc, p) matches Some((_, q)) ==> p <= q <= ts.len(),
    decreases ts.len() - p, 1nat,
{
    lemma_progress_atom(ts, p);
    if let Some((a, q)) = parse_atom(ts, p) {
        if p < q <= ts.len() {
            lemma_progress_apply_rest(ts, AstView::Apply { func: Box::new(acc), arg: Box::new(a) }, q);
        }
    }
}

proof fn lemma_progress_lambda(ts: Seq<TokenView>, p: nat)
    ensures
        parse_lambda(ts, p) matches Some((_, q)) ==> p < q <= ts.len(),
    decreases ts.len() - p, 2nat,
{
    let q = ident_run_end(ts, p + 1);
    if p + 1 < q <= ts.len() && is_tok(ts, q, TokenView::Dot) {
        lemma_progress_expr(ts, q + 1);
    }
}

proof fn lemma_progress_assign(ts: Seq<TokenView>, p: nat)
    ensures
        parse_assign(ts, p) matches Some((_, q)) ==> p < q <= ts.len(),
    decreases ts.len() - p, 0nat,
{
    if p < ts.len() && ts[p as int] is Ident && is_tok(ts, p + 1, TokenView::Equal) {
        lemma_progress_expr(ts, p + 2);
    }
}

proof fn lemma_progress_assign_items(ts: Seq<TokenView>, p: nat, acc: Seq<(Seq<char>, AstView)>)
    requires
        p <= ts.len(),
    ensures
        parse_assign_items(ts, p, acc) matches Some((_, q)) ==> p <= q <= ts.len(),
    decreases ts.len() - p, 1nat,
{
    lemma_progress_assign(ts, p);
    if let Some((b, q)) = parse_assign(ts, p) {
        if p < q <= ts.len() && is_tok(ts, q, TokenView::Comma) {
            lemma_progress_assign_items(ts, q + 1, acc.push(b));
        }
    }
}

proof fn lemma_progress_let(ts: Seq<TokenView>, p: nat, rec: bool)
    ensures
        parse_let(ts, p, rec) matches Some((_, q)) ==> p < q <= ts.len(),
    decreases ts.len() - p, 2nat,
{
    if p < ts.len() {
        let start = if is_tok(ts, p + 1, TokenView::Comma) {
            p + 2
        } else {
            p + 1
        };
        lemma_progress_assign_items(ts, start, seq![]);
        if let Some((bs, q)) = parse_assign_items(ts, start, seq![]) {
            if p < q && is_tok(ts, q, TokenView::In) {
                lemma_progress_expr(ts, q + 1);
            }
        }
    }
}

proof fn lemma_progress_import(ts: Seq<TokenView>, p: nat)
    ensures
        parse_import(ts, p) matches Some((_, q)) ==> p < q <= ts.len(),
    decreases ts.len() - p, 2nat,
{
    if p < ts.len() {
        let start = if is_tok(ts, p + 1, TokenView::Comma) {
            p + 2
        } else {
            p + 1
        };
        lemma_progress_import_items(ts, start, seq![]);
        if let Some((bs, q)) = import_items(ts, start, seq![]) {
            if p < q && is_tok(ts, q, TokenView::In) {
                lemma_progress_expr(ts, q + 1);
            }
        }
    }
}

/// Where an expression may end: at the end of the tokens, or before a token
/// that cannot start an atom.
pub open spec fn ends_expr(ts: Seq<TokenView>, q: nat) -> bool {
    q >= ts.len() || !(ts[q as int] is LParen || ts[q as int] is Ident || ts[q as int] is Natural
        || ts[q as int] is Boolean)
}

/// `ts1` and `ts2` have the same tokens from `p` up to `q`.
pub open spec fn agree_on(ts1: Seq<TokenView>, ts2: Seq<TokenView>, p: nat, q: nat) -> bool {
    &&& q <= ts1.len()
    &&& q <= ts2.len()
    &&& forall|k: int| p <= k < q ==> ts1[k] == ts2[k]
}

proof fn lemma_frame_ident_run_end(ts1: Seq<TokenView>, ts2: Seq<TokenView>, p: nat)
    requires
        ident_run_end(ts1, p) < ts1.len(),
        agree_on(ts1, ts2, p, ident_run_end(ts1, p) + 1),
    ensures
        ident_run_end(ts2, p) == ident_run_end(ts1, p),
    decreases ts1.len() - p,
{
    if p <= ts1.len() {
        lemma_progress_ident_run_end(ts1, p);
    }
    assert(ts1[p as int] == ts2[p as int]);
    if p < ts1.len() && ts1[p as int] is Ident {
        lemma_frame_ident_run_end(ts1, ts2, p + 1);
    }
}

proof fn lemma_frame_expr(ts1: Seq<TokenView>, ts2: Seq<TokenView>, p: nat)
    requires
        parse_expr(ts1, p) matches Some((_, q)) && agree_on(ts1, ts2, p, q) && ends_expr(ts1, q)
            && ends_expr(ts2, q),
    ensures
        parse_expr(ts2, p) == parse_expr(ts1, p),
    decreases ts1.len() - p, 4nat,
{
    let q = parse_expr(ts1, p)->Some_0.1;
    lemma_progress_expr(ts1, p);
    lemma_progress_atom(ts1, p);
    assert(ts1[p as int] == ts2[p as int]);
    match parse_atom(ts1, p) {
        Some((a, q1)) => {
            lemma_progress_apply_rest(ts1, a, q1);
            lemma_frame_atom(ts1, ts2, p);
            lemma_frame_apply_rest(ts1, ts2, a, q1);
        },
        None => {
            assert(parse_atom(ts2, p) is None);
            if is_tok(ts1, p, TokenView::Lambda) {
                lemma_frame_lambda(ts1, ts2, p);
            } else if is_tok(ts1, p, TokenView::Let) {
                lemma_frame_let(ts1, ts2, p, false);
            } else if is_tok(ts1, p, TokenView::Letrec) {
                lemma_frame_let(ts1, ts2, p, true);
            } else {
                lemma_frame_import(ts1, ts2, p);
            }
        },
    }
}

pub(crate) proof fn lemma_frame_atom(ts1: Seq<TokenView>, ts2: Seq<TokenView>, p: nat)
    requires
        parse_atom(ts1, p) matches Some((_, q)) && agree_on(ts1, ts2, p, q),
    ensures
        parse_atom(ts2, p) == parse_atom(ts1, p),
    decreases ts1.len() - p, 0nat,
{
    lemma_progress_atom(ts1, p);
    assert(ts1[p as int] == ts2[p as int]);
    if ts1[p as int] is LParen {
        lemma_progress_expr(ts1, p + 1);
        let q2 = parse_expr(ts1, p + 1)->Some_0.1;
        assert(ts1[q2 as int] == ts2[q2 as int]);
        lemma_frame_expr(ts1, ts2, p + 1);
    }
}

proof fn lemma_frame_apply_rest(ts1: Seq<TokenView>, ts2: Seq<TokenView>, acc: AstView, p: nat)
    requires
        p <= ts1.len(),
        parse_apply_rest(ts1, acc, p) matches Some((_, q)) && agree_on(ts1, ts2, p, q) && ends_expr(
            ts1,
            q,
        ) && ends_expr(ts2, q),
    ensures
        parse_apply_rest(ts2, acc, p) == parse_apply_rest(ts1, acc, p),
    decreases ts1.len() - p, 1nat,
{
    lemma_progress_atom(ts1, p);
    match parse_atom(ts1, p) {
        Some((a, q1)) => {
            let acc2 = AstView::Apply { func: Box::new(acc), arg: Box::new(a) };
            lemma_progress_apply_rest(ts1, acc2, q1);
            lemma_frame_atom(ts1, ts2, p);
            lemma_frame_apply_rest(ts1, ts2, acc2, q1);
        },
        None => {
            assert(parse_atom(ts2, p) is None);
        },
    }
}

proof fn lemma_frame_lambda(ts1: Seq<TokenView>, ts2: Seq<TokenView>, p: nat)
    requires
        parse_lambda(ts1, p) matches Some((_, q)) && agree_on(ts1, ts2, p, q) && ends_expr(ts1, q)
            && ends_expr(ts2, q),
    ensures
        parse_lambda(ts2, p) == parse_lambda(ts1, p),
    decreases ts1.len() - p, 2nat,
{
    let qd = ident_run_end(ts1, p + 1);
    lemma_progress_expr(ts1, qd + 1);
    lemma_frame_ident_run_end(ts1, ts2, p + 1);
    assert(ident_names(ts2, p + 1, qd) =~= ident_names(ts1, p + 1, qd));
    lemma_frame_expr(ts1, ts2, qd + 1);
}

proof fn lemma_frame_assign(ts1: Seq<TokenView>, ts2: Seq<TokenView>, p: nat)
    requires
        parse_assign(ts1, p) matches Some((_, q)) && agree_on(ts1, ts2, p, q) && ends_expr(ts1, q)
            && ends_expr(ts2, q),
    ensures
        parse_assign(ts2, p) == parse_assign(ts1, p),
    decreases ts1.len() - p, 0nat,
{
    lemma_progress_expr(ts1, p + 2);
    assert(ts1[p as int] == ts2[p as int]);
    assert(ts1[p + 1int] == ts2[p + 1int]);
    lemma_frame_expr(ts1, ts2, p + 2);
}

proof fn lemma_frame_assign_items(
    ts1: Seq<TokenView>,
    ts2: Seq<TokenView>,
    p: nat,
    acc: Seq<(Seq<char>, AstView)>,
)
    requires
        p <= ts1.len(),
        parse_assign_items(ts1, p, acc) matches Some((_, q)) && q < ts1.len() && agree_on(
            ts1,
            ts2,
            p,
            q + 1,
        ) && ends_expr(ts1, q),
    ensures
        parse_assign_items(ts2, p, acc) == parse_assign_items(ts1, p, acc),
    decreases ts1.len() - p, 1nat,
{
    let q = parse_assign_items(ts1, p, acc)->Some_0.1;
    lemma_progress_assign(ts1, p);
    match parse_assign(ts1, p) {
        Some((b, qv)) => {
            if is_tok(ts1, qv, TokenView::Comma) {
                lemma_progress_assign_items(ts1, qv + 1, acc.push(b));
                assert(ts1[qv as int] == ts2[qv as int]);
                lemma_frame_assign(ts1, ts2, p);
                lemma_frame_assign_items(ts1, ts2, qv + 1, acc.push(b));
            } else {
                assert(ts1[qv as int] == ts2[qv as int]);
                lemma_frame_assign(ts1, ts2, p);
            }
        },
        None => {
            assert(ts1[p as int] == ts2[p as int]);
            assert(parse_assign(ts2, p) is None);
        },
    }
}

proof fn lemma_frame_let(ts1: Seq<TokenView>, ts2: Seq<TokenView>, p: nat, rec: bool)
    requires
        parse_let(ts1, p, rec) matches Some((_, q)) && agree_on(ts1, ts2, p, q) && ends_expr(ts1, q)
            && ends_expr(ts2, q),
    ensures
        parse_let(ts2, p, rec) == parse_let(ts1, p, rec),
    decreases ts1.len() - p, 2nat,
{
    let start = if is_tok(ts1, p + 1, TokenView::Comma) {
        p + 2
    } else {
        p + 1
    };
    lemma_progress_assign_items(ts1, start, seq![]);
    let qi = parse_assign_items(ts1, start, seq![])->Some_0.1;
    lemma_progress_expr(ts1, qi + 1);
    if p + 1 < ts1.len() {
        assert(ts1[p + 1int] == ts2[p + 1int]);
    }
    assert(ts1[qi as int] == ts2[qi as int]);
    lemma_frame_assign_items(ts1, ts2, start, seq![]);
    lemma_frame_expr(ts1, ts2, qi + 1);
}

proof fn lemma_frame_import_items(
    ts1: Seq<TokenView>,
    ts2: Seq<TokenView>,
    p: nat,
    acc: Seq<(Seq<char>, Seq<char>)>,
)
    requires
        p <= ts1.len(),
        import_items(ts1, p, acc) matches Some((_, q)) && q < ts1.len() && agree_on(
            ts1,
            ts2,
            p,
            q + 1,
        ) && is_tok(ts1, q, TokenView::In),
    ensures
        import_items(ts2, p, acc) == import_items(ts1, p, acc),
    decreases ts1.len() - p,
{
    let q = import_items(ts1, p, acc)->Some_0.1;
    lemma_progress_import_items(ts1, p, acc);
    if p < ts1.len() {
        assert(ts1[p as int] == ts2[p as int]);
    }
    match import_binding(ts1, p) {
        Some((b, qb)) => {
            if p < qb <= ts1.len() && is_tok(ts1, qb, TokenView::Comma) {
                lemma_progress_import_items(ts1, qb + 1, acc.push(b));
            }
            assert(ts1[p + 1int] == ts2[p + 1int]);
            if is_tok(ts1, p + 1, TokenView::As) && p + 2 < ts1.len() && ts1[p + 2int] is Ident {
                assert(ts1[p + 2int] == ts2[p + 2int]);
            }
            if is_tok(ts1, p + 1, TokenView::As) && p + 2 < ts1.len() && p + 2 <= q {
                assert(ts1[p + 2int] == ts2[p + 2int]);
            }
            assert(import_binding(ts2, p) == import_binding(ts1, p));
            if p < qb <= ts1.len() && is_tok(ts1, qb, TokenView::Comma) {
                lemma_progress_import_items(ts1, qb + 1, acc.push(b));
                assert(ts1[qb as int] == ts2[qb as int]);
                lemma_frame_import_items(ts1, ts2, qb + 1, acc.push(b));
            } else {
                assert(ts1[qb as int] == ts2[qb as int]);
            }
        },
        None => {
            assert(import_binding(ts2, p) is None);
        },
    }
}

proof fn lemma_frame_import(ts1: Seq<TokenView>, ts2: Seq<TokenView>, p: nat)
    requires
        parse_import(ts1, p) matches Some((_, q)) && agree_on(ts1, ts2, p, q) && ends_expr(ts1, q)
            && ends_expr(ts2, q),
    ensures
        parse_import(ts2, p) == parse_import(ts1, p),
    decreases ts1.len() - p, 2nat,
{
    let start = if is_tok(ts1, p + 1, TokenView::Comma) {
        p + 2
    } else {
        p + 1
    };
    lemma_progress_import_items(ts1, start, seq![]);
    let qi = import_items(ts1, start, seq![])->Some_0.1;
    lemma_progress_expr(ts1, qi + 1);
    if p + 1 < ts1.len() {
        assert(ts1[p + 1int] == ts2[p + 1int]);
    }
    assert(ts1[qi as int] == ts2[qi as int]);
    lemma_frame_import_items(ts1, ts2, start, seq![]);
    lemma_frame_expr(ts1, ts2, qi + 1);
}

/// An expression that parses on its own parses the same way inside other
/// tokens, when what follows it there cannot continue it.
proof fn lemma_embedded_expr(ts: Seq<TokenView>, off: nat, e: Seq<TokenView>)
    requires
        off + e.len() <= ts.len(),
        ts.subrange(off as int, (off + e.len()) as int) == e,
        parse_spec(e) is Ok,
        ends_expr(ts, off + e.len()),
    ensures
        parse_expr(ts, off) == Some((parse_spec(e)->Ok_0, off + e.len())),
{
    let u = ts.skip(off as int);
    lemma_skip_index(ts, off);
    lemma_suffix_expr(ts, off, 0);
    assert(agree_on(e, u, 0, e.len())) by {
        assert forall|k: int| 0 <= k < e.len() implies e[k] == u[k] by {
            assert(e[k] == ts.subrange(off as int, (off + e.len()) as int)[k]);
        }
    }
    if e.len() < u.len() {
        assert(u[e.len() as int] == ts[(off + e.len()) as int]);
    }
    lemma_frame_expr(e, u, 0);
}

/// The keyword of a `let`, or of a `letrec` when `rec`.
pub open spec fn let_keyword(rec: bool) -> TokenView {
    if rec {
        TokenView::Letrec
    } else {
        TokenView::Let
    }
}

/// `let a = x, b = y in z` (or `letrec`), as tokens.
#[verifier::opaque]
pub open spec fn comma_let_tokens(
    rec: bool,
    a: Seq<char>,
    x: Seq<TokenView>,
    b: Seq<char>,
    y: Seq<TokenView>,
    z: Seq<TokenView>,
) -> Seq<TokenView> {
    seq![let_keyword(rec), TokenView::Ident(a), TokenView::Equal] + x + seq![
        TokenView::Comma,
        TokenView::Ident(b),
        TokenView::Equal,
    ] + y + seq![TokenView::In] + z
}

/// `let a = x in let b = y in z` (or `letrec`), as tokens.
#[verifier::opaque]
pub open spec fn nested_let_tokens(
    rec: bool,
    a: Seq<char>,
    x: Seq<TokenView>,
    b: Seq<char>,
    y: Seq<TokenView>,
    z: Seq<TokenView>,
) -> Seq<TokenView> {
    seq![let_keyword(rec), TokenView::Ident(a), TokenView::Equal] + x + seq![
        TokenView::In,
        let_keyword(rec),
        TokenView::Ident(b),
        TokenView::Equal,
    ] + y + seq![TokenView::In] + z
}

proof fn lemma_comma_let_layout(
    rec: bool,
    a: Seq<char>,
    x: Seq<TokenView>,
    b: Seq<char>,
    y: Seq<TokenView>,
    z: Seq<TokenView>,
)
    ensures
        ({
            let ts = comma_let_tokens(rec, a, x, b, y, z);
            let cx = 3 + x.len();
            let iy = cx + 3 + y.len();
            &&& ts.len() == iy + 1 + z.len()
            &&& ts[0] == let_keyword(rec)
            &&& ts[1] == TokenView::Ident(a)
            &&& ts[2] == TokenView::Equal
            &&& ts[cx as int] == TokenView::Comma
            &&& ts[cx + 1int] == TokenView::Ident(b)
            &&& ts[cx + 2int] == TokenView::Equal
            &&& ts[iy as int] == TokenView::In
            &&& ts.subrange(3, cx as int) == x
            &&& ts.subrange(cx + 3int, iy as int) == y
            &&& ts.skip(iy + 1int) == z
        }),
{
    reveal(comma_let_tokens);
    let ts = comma_let_tokens(rec, a, x, b, y, z);
    let cx = 3 + x.len();
    let iy = cx + 3 + y.len();
    assert(ts.subrange(3, cx as int) =~= x);
    assert(ts.subrange(cx + 3int, iy as int) =~= y);
    assert(ts.skip(iy + 1int) =~= z);
}

proof fn lemma_nested_let_layout(
    rec: bool,
    a: Seq<char>,
    x: Seq<TokenView>,
    b: Seq<char>,
    y: Seq<TokenView>,
    z: Seq<TokenView>,
)
    ensures
        ({
            let ts = nested_let_tokens(rec, a, x, b, y, z);
            let cx = 3 + x.len();
            let iy = cx + 4 + y.len();
            &&& ts.len() == iy + 1 + z.len()
            &&& ts[0] == let_keyword(rec)
            &&& ts[1] == TokenView::Ident(a)
            &&& ts[2] == TokenView::Equal
            &&& ts[cx as int] == TokenView::In
            &&& ts[cx + 1int] == let_keyword(rec)
            &&& ts[cx + 2int] == TokenView::Ident(b)
            &&& ts[cx + 3int] == TokenView::Equal
            &&& ts[iy as int] == TokenView::In
            &&& ts.subrange(3, cx as int) == x
            &&& ts.subrange(cx + 4int, iy as int) == y
            &&& ts.skip(iy + 1int) == z
        }),
{
    reveal(nested_let_tokens);
    let ts = nested_let_tokens(rec, a, x, b, y, z);
    let cx = 3 + x.len();
    let iy = cx + 4 + y.len();
    assert(ts.subrange(3, cx as int) =~= x);
    assert(ts.subrange(cx + 4int, iy as int) =~= y);
    assert(ts.skip(iy + 1int) =~= z);
}

#[verifier::rlimit(30)]
proof fn lemma_parse_comma_let(
    rec: bool,
    a: Seq<char>,
    x: Seq<TokenView>,
    b: Seq<char>,
    y: Seq<TokenView>,
    z: Seq<TokenView>,
)
    requires
        parse_spec(x) is Ok,
        parse_spec(y) is Ok,
    ensures
        parse_expr(comma_let_tokens(rec, a, x, b, y, z), 0) == (match parse_expr(z, 0) {
            Some((vz, r)) => Some(
                (
                    wrap_lets(
                        seq![(a, parse_spec(x)->Ok_0), (b, parse_spec(y)->Ok_0)],
                        vz,
                        rec,
                    ),
                    r + x.len() + y.len() + 7,
                ),
            ),
            None => None,
        }),
{
    let ts = comma_let_tokens(rec, a, x, b, y, z);
    lemma_comma_let_layout(rec, a, x, b, y, z);
    let vx = parse_spec(x)->Ok_0;
    let vy = parse_spec(y)->Ok_0;
    let cx = 3 + x.len();
    let iy = cx + 3 + y.len();
    lemma_embedded_expr(ts, 3, x);
    lemma_embedded_expr(ts, cx + 3, y);
    lemma_suffix_expr(ts, iy + 1, 0);
    assert(parse_atom(ts, 0) is None);
    assert(parse_assign(ts, 1) == Some(((a, vx), cx)));
    assert(parse_assign(ts, cx + 1) == Some(((b, vy), iy)));
    let one = seq![(a, vx)];
    let two = one.push((b, vy));
    assert(parse_assign_items(ts, cx + 1, one) == Some((two, iy)));
    assert(parse_assign_items(ts, 1, seq![]) == Some((two, iy))) by {
        assert(seq![].push((a, vx)) == one);
    }
    assert(two =~= seq![(a, vx), (b, vy)]);
}

#[verifier::rlimit(30)]
proof fn lemma_parse_nested_let(
    rec: bool,
    a: Seq<char>,
    x: Seq<TokenView>,
    b: Seq<char>,
    y: Seq<TokenView>,
    z: Seq<TokenView>,
)
    requires
        parse_spec(x) is Ok,
        parse_spec(y) is Ok,
    ensures
        parse_expr(nested_let_tokens(rec, a, x, b, y, z), 0) == (match parse_expr(z, 0) {
            Some((vz, r)) => Some(
                (
                    wrap_lets(
                        seq![(a, parse_spec(x)->Ok_0), (b, parse_spec(y)->Ok_0)],
                        vz,
                        rec,
                    ),
                    r + x.len() + y.len() + 8,
                ),
            ),
            None => None,
        }),
{
    let ts = nested_let_tokens(rec, a, x, b, y, z);
    lemma_nested_let_layout(rec, a, x, b, y, z);
    let vx = parse_spec(x)->Ok_0;
    let vy = parse_spec(y)->Ok_0;
    let cx = 3 + x.len();
    let iy = cx + 4 + y.len();
    lemma_embedded_expr(ts, 3, x);
    lemma_embedded_expr(ts, cx + 4, y);
    lemma_suffix_expr(ts, iy + 1, 0);
    assert(parse_atom(ts, 0) is None);
    assert(parse_atom(ts, cx + 1) is None);
    assert(parse_assign(ts, 1) == Some(((a, vx), cx)));
    assert(parse_assign(ts, cx + 2) == Some(((b, vy), iy)));
    assert(parse_assign_items(ts, 1, seq![]) == Some((seq![(a, vx)], cx))) by {
        assert(seq![].push((a, vx)) =~= seq![(a, vx)]);
    }
    assert(parse_assign_items(ts, cx + 2, seq![]) == Some((seq![(b, vy)], iy))) by {
        assert(seq![].push((b, vy)) =~= seq![(b, vy)]);
    }
    assert(seq![(a, vx), (b, vy)].drop_first() =~= seq![(b, vy)]);
    assert(seq![(b, vy)].drop_first() =~= Seq::<(Seq<char>, AstView)>::empty());
    assert(seq![(a, vx)].drop_first() =~= Seq::<(Seq<char>, AstView)>::empty());
    if let Some((vz, r)) = parse_expr(z, 0) {
        let inner = wrap_lets(seq![(b, vy)], vz, rec);
        assert(wrap_lets(Seq::<(Seq<char>, AstView)>::empty(), vz, rec) == vz);
        assert(parse_let(ts, cx + 1, rec) == Some((inner, r + iy + 1)));
        assert(parse_expr(ts, cx + 1) == Some((inner, r + iy + 1)));
        assert(wrap_lets(Seq::<(Seq<char>, AstView)>::empty(), inner, rec) == inner);
        assert(wrap_lets(seq![(a, vx)], inner, rec) == wrap_lets(seq![(a, vx), (b, vy)], vz, rec));
        assert(parse_let(ts, 0, rec) == Some((wrap_lets(seq![(a, vx)], inner, rec), r + iy + 1)));
    } else {
        assert(parse_let(ts, cx + 1, rec) is None);
        assert(parse_expr(ts, cx + 1) is None);
        assert(parse_let(ts, 0, rec) is None);
    }
}

/// Bindings separated by a comma are nested bindings: `let a = x, b = y in
/// z` parses as `let a = x in let b = y in z`, and so for `letrec`, when
/// `x` and `y` are expressions (a failure in `z` is reported one token
/// later in the longer form).
pub proof fn law_comma_let_is_nested(
    rec: bool,
    a: Seq<char>,
    x: Seq<TokenView>,
    b: Seq<char>,
    y: Seq<TokenView>,
    z: Seq<TokenView>,
)
    requires
        parse_spec(x) is Ok,
        parse_spec(y) is Ok,
    ensures
        parse_spec(nested_let_tokens(rec, a, x, b, y, z)) == (match parse_spec(
            comma_let_tokens(rec, a, x, b, y, z),
        ) {
            Ok(e) => Ok(e),
            Err(p) => Err::<AstView, nat>(
                if p == 0 {
                    0
                } else {
                    p + 1
                },
            ),
        }),
{
    lemma_parse_comma_let(rec, a, x, b, y, z);
    lemma_parse_nested_let(rec, a, x, b, y, z);
    lemma_comma_let_layout(rec, a, x, b, y, z);
    lemma_nested_let_layout(rec, a, x, b, y, z);
}

/// One import binding as tokens: `m as n`, or `m` alone.
pub open spec fn binding_tokens(m: Seq<char>, n: Seq<char>, aliased: bool) -> Seq<TokenView> {
    if aliased {
        seq![TokenView::Ident(m), TokenView::As, TokenView::Ident(n)]
    } else {
        seq![TokenView::Ident(m)]
    }
}

/// The (module, name) pair an import binding stands for.
pub open spec fn binding_of(m: Seq<char>, n: Seq<char>, aliased: bool) -> (Seq<char>, Seq<char>) {
    if aliased {
        (m, n)
    } else {
        (m, m)
    }
}

/// `import b1, b2 in z`, as tokens.
#[verifier::opaque]
pub open spec fn comma_import_tokens(
    b1: Seq<TokenView>,
    b2: Seq<TokenView>,
    z: Seq<TokenView>,
) -> Seq<TokenView> {
    seq![TokenView::Import] + b1 + seq![TokenView::Comma] + b2 + seq![TokenView::In] + z
}

/// `import b1 in import b2 in z`, as tokens.
#[verifier::opaque]
pub open spec fn nested_import_tokens(
    b1: Seq<TokenView>,
    b2: Seq<TokenView>,
    z: Seq<TokenView>,
) -> Seq<TokenView> {
    seq![TokenView::Import] + b1 + seq![TokenView::In, TokenView::Import] + b2 + seq![TokenView::In]
        + z
}

/// A binding at `p` followed by a comma or `in` at `p + |b|` is read as its
/// pair.
proof fn lemma_binding_at(
    ts: Seq<TokenView>,
    p: nat,
    m: Seq<char>,
    n: Seq<char>,
    aliased: bool,
)
    requires
        p + binding_tokens(m, n, aliased).len() < ts.len(),
        ts.subrange(p as int, p + binding_tokens(m, n, aliased).len() as int) == binding_tokens(
            m,
            n,
            aliased,
        ),
        ts[p + binding_tokens(m, n, aliased).len() as int] is Comma || ts[p + binding_tokens(
            m,
            n,
            aliased,
        ).len() as int] is In,
    ensures
        import_binding(ts, p) == Some(
            (binding_of(m, n, aliased), p + binding_tokens(m, n, aliased).len()),
        ),
{
    let bt = binding_tokens(m, n, aliased);
    assert(ts[p as int] == bt[0]);
    if aliased {
        assert(ts[p + 1int] == bt[1]);
        assert(ts[p + 2int] == bt[2]);
    }
}

#[verifier::rlimit(30)]
proof fn lemma_parse_comma_import(
    m1: Seq<char>,
    n1: Seq<char>,
    a1: bool,
    m2: Seq<char>,
    n2: Seq<char>,
    a2: bool,
    z: Seq<TokenView>,
)
    ensures
        ({
            let b1 = binding_tokens(m1, n1, a1);
            let b2 = binding_tokens(m2, n2, a2);
            parse_expr(comma_import_tokens(b1, b2, z), 0) == (match parse_expr(z, 0) {
                Some((vz, r)) => Some(
                    (
                        wrap_imports(
                            seq![binding_of(m1, n1, a1), binding_of(m2, n2, a2)],
                            vz,
                        ),
                        r + b1.len() + b2.len() + 3,
                    ),
                ),
                None => None,
            })
        }),
{
    reveal(comma_import_tokens);
    let b1 = binding_tokens(m1, n1, a1);
    let b2 = binding_tokens(m2, n2, a2);
    let ts = comma_import_tokens(b1, b2, z);
    let c = 1 + b1.len();
    let i = c + 1 + b2.len();
    assert(ts.subrange(1, c as int) =~= b1);
    assert(ts.subrange(c + 1int, i as int) =~= b2);
    assert(ts.skip(i + 1int) =~= z);
    assert(ts[c as int] == TokenView::Comma);
    assert(ts[i as int] == TokenView::In);
    lemma_binding_at(ts, 1, m1, n1, a1);
    lemma_binding_at(ts, c + 1, m2, n2, a2);
    lemma_suffix_expr(ts, i + 1, 0);
    let one = seq![binding_of(m1, n1, a1)];
    let two = one.push(binding_of(m2, n2, a2));
    assert(import_items(ts, c + 1, one) == Some((two, i)));
    assert(import_items(ts, 1, seq![]) == Some((two, i))) by {
        assert(seq![].push(binding_of(m1, n1, a1)) == one);
    }
    assert(two =~= seq![binding_of(m1, n1, a1), binding_of(m2, n2, a2)]);
    assert(parse_atom(ts, 0) is None);
}

#[verifier::rlimit(30)]
proof fn lemma_parse_nested_import(
    m1: Seq<char>,
    n1: Seq<char>,
    a1: bool,
    m2: Seq<char>,
    n2: Seq<char>,
    a2: bool,
    z: Seq<TokenView>,
)
    ensures
        ({
            let b1 = binding_tokens(m1, n1, a1);
            let b2 = binding_tokens(m2, n2, a2);
            parse_expr(nested_import_tokens(b1, b2, z), 0) == (match parse_expr(z, 0) {
                Some((vz, r)) => Some(
                    (
                        wrap_imports(
                            seq![binding_of(m1, n1, a1), binding_of(m2, n2, a2)],
                            vz,
                        ),
                        r + b1.len() + b2.len() + 4,
                    ),
                ),
                None => None,
            })
        }),
{
    reveal(nested_import_tokens);
    let b1 = binding_tokens(m1, n1, a1);
    let b2 = binding_tokens(m2, n2, a2);
    let ts = nested_import_tokens(b1, b2, z);
    let c = 1 + b1.len();
    let i = c + 2 + b2.len();
    let p1 = binding_of(m1, n1, a1);
    let p2 = binding_of(m2, n2, a2);
    assert(ts.subrange(1, c as int) =~= b1);
    assert(ts.subrange(c + 2int, i as int) =~= b2);
    assert(ts.skip(i + 1int) =~= z);
    assert(ts[c as int] == TokenView::In);
    assert(ts[c + 1int] == TokenView::Import);
    assert(ts[i as int] == TokenView::In);
    lemma_binding_at(ts, 1, m1, n1, a1);
    lemma_binding_at(ts, c + 2, m2, n2, a2);
    lemma_suffix_expr(ts, i + 1, 0);
    assert(import_items(ts, 1, seq![]) == Some((seq![p1], c))) by {
        assert(seq![].push(p1) =~= seq![p1]);
    }
    assert(import_items(ts, c + 2, seq![]) == Some((seq![p2], i))) by {
        assert(seq![].push(p2) =~= seq![p2]);
    }
    assert(parse_atom(ts, 0) is None);
    assert(parse_atom(ts, c + 1) is None);
    assert(seq![p1, p2].drop_first() =~= seq![p2]);
    assert(seq![p2].drop_first() =~= Seq::<(Seq<char>, Seq<char>)>::empty());
    assert(seq![p1].drop_first() =~= Seq::<(Seq<char>, Seq<char>)>::empty());
    if let Some((vz, r)) = parse_expr(z, 0) {
        let inner = wrap_imports(seq![p2], vz);
        assert(wrap_imports(Seq::<(Seq<char>, Seq<char>)>::empty(), vz) == vz);
        assert(parse_import(ts, c + 1) == Some((inner, r + i + 1)));
        assert(parse_expr(ts, c + 1) == Some((inner, r + i + 1)));
        assert(wrap_imports(Seq::<(Seq<char>, Seq<char>)>::empty(), inner) == inner);
        assert(wrap_imports(seq![p1], inner) == wrap_imports(seq![p1, p2], vz));
    } else {
        assert(parse_import(ts, c + 1) is None);
        assert(parse_expr(ts, c + 1) is None);
    }
}

/// Imports separated by a comma are nested imports: `import b1, b2 in z`
/// parses as `import b1 in import b2 in z`, each binding `m` or `m as n`
/// (a failure in `z` is reported one token later in the longer form).
pub proof fn law_comma_import_is_nested(
    m1: Seq<char>,
    n1: Seq<char>,
    a1: bool,
    m2: Seq<char>,
    n2: Seq<char>,
    a2: bool,
    z: Seq<TokenView>,
)
    ensures
        parse_spec(
            nested_import_tokens(binding_tokens(m1, n1, a1), binding_tokens(m2, n2, a2), z),
        ) == (match parse_spec(
            comma_import_tokens(binding_tokens(m1, n1, a1), binding_tokens(m2, n2, a2), z),
        ) {
            Ok(e) => Ok(e),
            Err(p) => Err::<AstView, nat>(
                if p == 0 {
                    0
                } else {
                    p + 1
                },
            ),
        }),
{
    lemma_parse_comma_import(m1, n1, a1, m2, n2, a2, z);
    lemma_parse_nested_import(m1, n1, a1, m2, n2, a2, z);
    reveal(comma_import_tokens);
    reveal(nested_import_tokens);
}

/// A comma, or nothing.
pub open spec fn optional_comma(present: bool) -> Seq<TokenView> {
    if present {
        seq![TokenView::Comma]
    } else {
        seq![]
    }
}

/// `let a = x in z` (or `letrec`) as tokens, with a comma before the
/// binding when `leading` and after it when `trailing`.
#[verifier::opaque]
pub open spec fn single_let_tokens(
    rec: bool,
    leading: bool,
    a: Seq<char>,
    x: Seq<TokenView>,
    trailing: bool,
    z: Seq<TokenView>,
) -> Seq<TokenView> {
    seq![let_keyword(rec)] + optional_comma(leading) + seq![TokenView::Ident(a), TokenView::Equal]
        + x + optional_comma(trailing) + seq![TokenView::In] + z
}

proof fn lemma_single_let_layout(
    rec: bool,
    leading: bool,
    a: Seq<char>,
    x: Seq<TokenView>,
    trailing: bool,
    z: Seq<TokenView>,
)
    ensures
        ({
            let ts = single_let_tokens(rec, leading, a, x, trailing, z);
            let s0 = 1 + optional_comma(leading).len();
            let cx = s0 + 2 + x.len();
            let i = cx + optional_comma(trailing).len();
            &&& ts.len() == i + 1 + z.len()
            &&& ts[0] == let_keyword(rec)
            &&& leading ==> ts[1] == TokenView::Comma
            &&& ts[s0 as int] == TokenView::Ident(a)
            &&& ts[s0 + 1int] == TokenView::Equal
            &&& ts.subrange(s0 + 2int, cx as int) == x
            &&& trailing ==> ts[cx as int] == TokenView::Comma
            &&& ts[i as int] == TokenView::In
            &&& ts.skip(i + 1int) == z
        }),
{
    reveal(single_let_tokens);
    let ts = single_let_tokens(rec, leading, a, x, trailing, z);
    let s0 = 1 + optional_comma(leading).len();
    let cx = s0 + 2 + x.len();
    let i = cx + optional_comma(trailing).len();
    assert(ts.subrange(s0 + 2int, cx as int) =~= x);
    assert(ts.skip(i + 1int) =~= z);
}

#[verifier::rlimit(30)]
proof fn lemma_parse_single_let(
    rec: bool,
    leading: bool,
    a: Seq<char>,
    x: Seq<TokenView>,
    trailing: bool,
    z: Seq<TokenView>,
)
    requires
        parse_spec(x) is Ok,
    ensures
        parse_expr(single_let_tokens(rec, leading, a, x, trailing, z), 0) == (match parse_expr(z, 0) {
            Some((vz, r)) => Some(
                (
                    wrap_lets(seq![(a, parse_spec(x)->Ok_0)], vz, rec),
                    r + x.len() + 4 + optional_comma(leading).len() + optional_comma(trailing).len(),
                ),
            ),
            None => None,
        }),
{
    let ts = single_let_tokens(rec, leading, a, x, trailing, z);
    lemma_single_let_layout(rec, leading, a, x, trailing, z);
    let vx = parse_spec(x)->Ok_0;
    let s0 = 1 + optional_comma(leading).len();
    let cx = s0 + 2 + x.len();
    let i = cx + optional_comma(trailing).len();
    lemma_embedded_expr(ts, s0 + 2, x);
    lemma_suffix_expr(ts, i + 1, 0);
    assert(parse_atom(ts, 0) is None);
    assert(parse_assign(ts, s0) == Some(((a, vx), cx)));
    let one = seq![(a, vx)];
    assert(seq![].push((a, vx)) =~= one);
    if trailing {
        assert(parse_assign(ts, i) is None);
        assert(parse_assign_items(ts, i, one) == Some((one, i)));
    }
    assert(parse_assign_items(ts, s0, seq![]) == Some((one, i)));
}

/// The commas around a single binding are optional: `let , a = x , in z`
/// with either comma or both parses as `let a = x in z`, and so for
/// `letrec`, when `x` is an expression (a failure in `z` is reported as
/// many tokens later as there are commas).
pub proof fn law_let_commas_are_optional(
    rec: bool,
    leading: bool,
    a: Seq<char>,
    x: Seq<TokenView>,
    trailing: bool,
    z: Seq<TokenView>,
)
    requires
        parse_spec(x) is Ok,
    ensures
        parse_spec(single_let_tokens(rec, leading, a, x, trailing, z)) == (match parse_spec(
            single_let_tokens(rec, false, a, x, false, z),
        ) {
            Ok(e) => Ok(e),
            Err(p) => Err::<AstView, nat>(
                if p == 0 {
                    0
                } else {
                    p + optional_comma(leading).len() + optional_comma(trailing).len()
                },
            ),
        }),
{
    lemma_parse_single_let(rec, leading, a, x, trailing, z);
    lemma_parse_single_let(rec, false, a, x, false, z);
    lemma_single_let_layout(rec, leading, a, x, trailing, z);
    lemma_single_let_layout(rec, false, a, x, false, z);
}

} // verus!
