use crate::lexer::{Token, TokenView, tokens_view};
use crate::syntax::{Ast, AstView};
use crate::text::{decimal, push_str};
use vstd::prelude::*;

verus! {

/// `ts[p]` is the token `t`.
pub open spec fn is_tok(ts: Seq<TokenView>, p: nat, t: TokenView) -> bool {
    p < ts.len() && ts[p as int] == t
}

/// `\p1 p2 ... . body` as nested lambdas.
pub open spec fn wrap_lambdas(params: Seq<Seq<char>>, body: AstView) -> AstView
    decreases params.len(),
{
    if params.len() == 0 {
        body
    } else {
        AstView::Lambda { param: params[0], body: Box::new(wrap_lambdas(params.drop_first(), body)) }
    }
}

/// `let n1 = v1, n2 = v2, ... in body` as nested lets (or letrecs).
pub open spec fn wrap_lets(bindings: Seq<(Seq<char>, AstView)>, body: AstView, rec: bool) -> AstView
    decreases bindings.len(),
{
    if bindings.len() == 0 {
        body
    } else {
        let rest = Box::new(wrap_lets(bindings.drop_first(), body, rec));
        if rec {
            AstView::Letrec { name: bindings[0].0, value: Box::new(bindings[0].1), body: rest }
        } else {
            AstView::Let { name: bindings[0].0, value: Box::new(bindings[0].1), body: rest }
        }
    }
}

/// `import m1 as n1, m2, ... in body` as nested imports.
pub open spec fn wrap_imports(bindings: Seq<(Seq<char>, Seq<char>)>, body: AstView) -> AstView
    decreases bindings.len(),
{
    if bindings.len() == 0 {
        body
    } else {
        AstView::Import {
            module: bindings[0].0,
            name: bindings[0].1,
            body: Box::new(wrap_imports(bindings.drop_first(), body)),
        }
    }
}

/// The end of the run of identifier tokens from `p` on.
pub open spec fn ident_run_end(ts: Seq<TokenView>, p: nat) -> nat
    decreases ts.len() - p,
{
    if p < ts.len() && ts[p as int] is Ident {
        ident_run_end(ts, p + 1)
    } else {
        p
    }
}

/// The names of the identifier tokens `ts[p..q]`.
pub open spec fn ident_names(ts: Seq<TokenView>, p: nat, q: nat) -> Seq<Seq<char>> {
    ts.subrange(p as int, q as int).map_values(|t: TokenView| t->Ident_0)
}

/// The name of a module as written in an import: an identifier, or the
/// library's `true` and `false`.
pub open spec fn module_name(t: TokenView) -> Option<Seq<char>> {
    match t {
        TokenView::Ident(n) => Some(n),
        TokenView::Boolean(b) => Some(t.display()),
        _ => None,
    }
}

/// One import binding at `p`: `m as n`, or `m` for `m as m`.
pub open spec fn import_binding(ts: Seq<TokenView>, p: nat) -> Option<((Seq<char>, Seq<char>), nat)> {
    if p < ts.len() && module_name(ts[p as int]) is Some {
        let m = module_name(ts[p as int])->Some_0;
        if is_tok(ts, p + 1, TokenView::As) && p + 2 < ts.len() && ts[p + 2int] is Ident {
            Some(((m, ts[p + 2int]->Ident_0), p + 3))
        } else {
            Some(((m, m), p + 1))
        }
    } else {
        None
    }
}

/// Import bindings separated by commas, a trailing comma allowed, after the
/// ones in `acc`.
pub open spec fn import_items(ts: Seq<TokenView>, p: nat, acc: Seq<(Seq<char>, Seq<char>)>) -> Option<
    (Seq<(Seq<char>, Seq<char>)>, nat),
>
    decreases ts.len() - p,
{
    match import_binding(ts, p) {
        Some((b, q)) => if p < q <= ts.len() && is_tok(ts, q, TokenView::Comma) {
            import_items(ts, q + 1, acc.push(b))
        } else {
            Some((acc.push(b), q))
        },
        None => if acc.len() > 0 {
            Some((acc, p))
        } else {
            None
        },
    }
}

/// An expression: an application chain if an atom starts at `p`, else a
/// lambda, a `let`, a `letrec` or an `import`.
pub open spec fn parse_expr(ts: Seq<TokenView>, p: nat) -> Option<(AstView, nat)>
    decreases ts.len() - p, 4nat,
{
    match parse_atom(ts, p) {
        Some((a, q)) => if p < q <= ts.len() {
            parse_apply_rest(ts, a, q)
        } else {
            None
        },
        None => if is_tok(ts, p, TokenView::Lambda) {
            parse_lambda(ts, p)
        } else if is_tok(ts, p, TokenView::Let) {
            parse_let(ts, p, false)
        } else if is_tok(ts, p, TokenView::Letrec) {
            parse_let(ts, p, true)
        } else if is_tok(ts, p, TokenView::Import) {
            parse_import(ts, p)
        } else {
            None
        },
    }
}

/// A parenthesized expression, a variable, a natural number or a boolean.
pub open spec fn parse_atom(ts: Seq<TokenView>, p: nat) -> Option<(AstView, nat)>
    decreases ts.len() - p, 0nat,
{
    if p >= ts.len() {
        None
    } else {
        match ts[p as int] {
            TokenView::LParen => match parse_expr(ts, p + 1) {
                Some((e, q)) => if is_tok(ts, q, TokenView::RParen) {
                    Some((e, q + 1))
                } else {
                    None
                },
                None => None,
            },
            TokenView::Ident(name) => Some((AstView::Var(name), p + 1)),
            TokenView::Natural(n) => Some((AstView::Nat(n), p + 1)),
            TokenView::Boolean(b) => Some((AstView::Boolean(b), p + 1)),
            _ => None,
        }
    }
}

/// The atoms after the first one of an application chain, applied left to
/// right to `acc`.
pub open spec fn parse_apply_rest(ts: Seq<TokenView>, acc: AstView, p: nat) -> Option<(AstView, nat)>
    decreases ts.len() - p, 1nat,
{
    match parse_atom(ts, p) {
        Some((a, q)) => if p < q <= ts.len() {
            parse_apply_rest(ts, AstView::Apply { func: Box::new(acc), arg: Box::new(a) }, q)
        } else {
            Some((acc, p))
        },
        None => Some((acc, p)),
    }
}

/// `\ x y ... . body`, with `ts[p]` the backslash.
pub open spec fn parse_lambda(ts: Seq<TokenView>, p: nat) -> Option<(AstView, nat)>
    decreases ts.len() - p, 2nat,
{
    let q = ident_run_end(ts, p + 1);
    if p + 1 < q <= ts.len() && is_tok(ts, q, TokenView::Dot) {
        match parse_expr(ts, q + 1) {
            Some((body, r)) => Some((wrap_lambdas(ident_names(ts, p + 1, q), body), r)),
            None => None,
        }
    } else {
        None
    }
}

/// One binding `name = value` at `p`.
pub open spec fn parse_assign(ts: Seq<TokenView>, p: nat) -> Option<((Seq<char>, AstView), nat)>
    decreases ts.len() - p, 0nat,
{
    if p < ts.len() && ts[p as int] is Ident && is_tok(ts, p + 1, TokenView::Equal) {
        match parse_expr(ts, p + 2) {
            Some((v, q)) => Some(((ts[p as int]->Ident_0, v), q)),
            None => None,
        }
    } else {
        None
    }
}

/// Bindings separated by commas, a trailing comma allowed, after the ones
/// in `acc`.
pub open spec fn parse_assign_items(ts: Seq<TokenView>, p: nat, acc: Seq<(Seq<char>, AstView)>) -> Option<
    (Seq<(Seq<char>, AstView)>, nat),
>
    decreases ts.len() - p, 1nat,
{
    match parse_assign(ts, p) {
        Some((b, q)) => if p < q <= ts.len() && is_tok(ts, q, TokenView::Comma) {
            parse_assign_items(ts, q + 1, acc.push(b))
        } else {
            Some((acc.push(b), q))
        },
        None => if acc.len() > 0 {
            Some((acc, p))
        } else {
            None
        },
    }
}

/// `let` (or `letrec`) bindings `in` body, with `ts[p]` the keyword; a
/// leading comma is allowed.
pub open spec fn parse_let(ts: Seq<TokenView>, p: nat, rec: bool) -> Option<(AstView, nat)>
    decreases ts.len() - p, 2nat,
{
    if p >= ts.len() {
        None
    } else {
        let start = if is_tok(ts, p + 1, TokenView::Comma) {
            p + 2
        } else {
            p + 1
        };
        match parse_assign_items(ts, start, seq![]) {
            Some((bs, q)) => if p < q && is_tok(ts, q, TokenView::In) {
                match parse_expr(ts, q + 1) {
                    Some((body, r)) => Some((wrap_lets(bs, body, rec), r)),
                    None => None,
                }
            } else {
                None
            },
            None => None,
        }
    }
}

/// `import` bindings `in` body, with `ts[p]` the keyword; a leading comma
/// is allowed.
pub open spec fn parse_import(ts: Seq<TokenView>, p: nat) -> Option<(AstView, nat)>
    decreases ts.len() - p, 2nat,
{
    if p >= ts.len() {
        None
    } else {
        let start = if is_tok(ts, p + 1, TokenView::Comma) {
            p + 2
        } else {
            p + 1
        };
        match import_items(ts, start, seq![]) {
            Some((bs, q)) => if p < q && is_tok(ts, q, TokenView::In) {
                match parse_expr(ts, q + 1) {
                    Some((body, r)) => Some((wrap_imports(bs, body), r)),
                    None => None,
                }
            } else {
                None
            },
            None => None,
        }
    }
}

/// A whole program: one expression that takes all the tokens; otherwise
/// the token position where parsing stopped.
pub open spec fn parse_spec(ts: Seq<TokenView>) -> Result<AstView, nat> {
    match parse_expr(ts, 0) {
        Some((a, q)) => if q == ts.len() {
            Ok(a)
        } else {
            Err(q)
        },
        None => Err(0),
    }
}

/// The exec parse result agrees with the spec one.
pub open spec fn agrees(spec: Option<(AstView, nat)>, r: Option<(Ast, usize)>) -> bool {
    match spec {
        Some((a, q)) => r matches Some((a2, q2)) && a2@ == a && q2 as nat == q,
        None => r is None,
    }
}

proof fn lemma_tokens_view(ts: Seq<Token>)
    ensures
        tokens_view(ts).len() == ts.len(),
        forall|i: int| 0 <= i < ts.len() ==> #[trigger] tokens_view(ts)[i] == ts[i]@,
{
}

/// `ts[p + k]` is the punctuation or keyword token `t`.
fn tok_is(ts: &[Token], p: usize, k: usize, t: &Token) -> (r: bool)
    requires
        t@ !is Ident && t@ !is Natural && t@ !is Boolean,
    ensures
        r == is_tok(tokens_view(ts@), (p + k) as nat, t@),
{
    let _len = ts.len();
    proof {
        lemma_tokens_view(ts@);
    }
    if p >= ts.len() || ts.len() - p <= k {
        return false;
    }
    match (&ts[p + k], t) {
        (Token::Lambda, Token::Lambda) => true,
        (Token::Dot, Token::Dot) => true,
        (Token::LParen, Token::LParen) => true,
        (Token::RParen, Token::RParen) => true,
        (Token::Let, Token::Let) => true,
        (Token::Letrec, Token::Letrec) => true,
        (Token::Import, Token::Import) => true,
        (Token::From, Token::From) => true,
        (Token::As, Token::As) => true,
        (Token::In, Token::In) => true,
        (Token::Comma, Token::Comma) => true,
        (Token::Equal, Token::Equal) => true,
        _ => false,
    }
}

/// The name of the identifier token `ts[p + k]`, if it is one.
fn ident_at(ts: &[Token], p: usize, k: usize) -> (r: Option<String>)
    ensures
        match r {
            Some(n) => p + k < ts@.len() && tokens_view(ts@)[p + k] == TokenView::Ident(n@),
            None => !(p + k < ts@.len() && tokens_view(ts@)[p + k] is Ident),
        },
{
    let _len = ts.len();
    proof {
        lemma_tokens_view(ts@);
    }
    if p >= ts.len() || ts.len() - p <= k {
        return None;
    }
    match &ts[p + k] {
        Token::Ident(n) => Some(n.clone()),
        _ => None,
    }
}

/// The module name at `ts[p]`, if one stands there.
fn module_at(ts: &[Token], p: usize) -> (r: Option<String>)
    ensures
        match r {
            Some(n) => p < ts@.len() && module_name(tokens_view(ts@)[p as int]) == Some(n@),
            None => !(p < ts@.len() && module_name(tokens_view(ts@)[p as int]) is Some),
        },
{
    let _len = ts.len();
    proof {
        lemma_tokens_view(ts@);
    }
    if p >= ts.len() {
        return None;
    }
    match &ts[p] {
        Token::Ident(n) => Some(n.clone()),
        Token::Boolean(_) => Some(ts[p].to_display_string()),
        _ => None,
    }
}

/// The models of a list of names.
pub open spec fn names_view(v: Seq<String>) -> Seq<Seq<char>> {
    v.map_values(|s: String| s@)
}

fn build_lambdas(params: Vec<String>, body: Ast) -> (r: Ast)
    ensures
        r@ == wrap_lambdas(names_view(params@), body@),
{
    let ghost names = names_view(params@);
    let ghost orig = params@;
    let mut params = params;
    let mut result = body;
    proof {
        assert(names.subrange(names.len() as int, names.len() as int) =~= Seq::<Seq<char>>::empty());
    }
    while params.len() > 0
        invariant
            names.len() == orig.len() >= params@.len(),
            params@ == orig.take(params@.len() as int),
            names == names_view(orig),
            result@ == wrap_lambdas(names.subrange(params@.len() as int, names.len() as int), body@),
        decreases params@.len(),
    {
        let ghost l = params@.len();
        let p = params.pop().unwrap();
        proof {
            let sub = names.subrange(l - 1, names.len() as int);
            assert(sub.drop_first() =~= names.subrange(l as int, names.len() as int));
            assert(sub[0] == p@);
        }
        result = Ast::Lambda { param: p, body: Box::new(result) };
        proof {
            assert(params@ =~= orig.take(l - 1));
        }
    }
    proof {
        assert(names.subrange(0, names.len() as int) =~= names);
    }
    result
}

/// The models of a list of bindings.
pub open spec fn bindings_view(v: Seq<(String, Ast)>) -> Seq<(Seq<char>, AstView)> {
    v.map_values(|b: (String, Ast)| (b.0@, b.1@))
}

/// The models of a list of import bindings.
pub open spec fn imports_view(v: Seq<(String, String)>) -> Seq<(Seq<char>, Seq<char>)> {
    v.map_values(|b: (String, String)| (b.0@, b.1@))
}

fn build_lets(bindings: Vec<(String, Ast)>, body: Ast, rec: bool) -> (r: Ast)
    ensures
        r@ == wrap_lets(bindings_view(bindings@), body@, rec),
{
    let ghost bs = bindings_view(bindings@);
    let ghost orig = bindings@;
    let mut bindings = bindings;
    let mut result = body;
    proof {
        assert(bs.subrange(bs.len() as int, bs.len() as int) =~= Seq::<(Seq<char>, AstView)>::empty());
    }
    while bindings.len() > 0
        invariant
            bs.len() == orig.len() >= bindings@.len(),
            bindings@ == orig.take(bindings@.len() as int),
            bs == bindings_view(orig),
            result@ == wrap_lets(bs.subrange(bindings@.len() as int, bs.len() as int), body@, rec),
        decreases bindings@.len(),
    {
        let ghost l = bindings@.len();
        let (name, value) = bindings.pop().unwrap();
        proof {
            let sub = bs.subrange(l - 1, bs.len() as int);
            assert(sub.drop_first() =~= bs.subrange(l as int, bs.len() as int));
            assert(sub[0] == (name@, value@));
            assert(bindings@ =~= orig.take(l - 1));
        }
        if rec {
            result = Ast::Letrec { name, value: Box::new(value), body: Box::new(result) };
        } else {
            result = Ast::Let { name, value: Box::new(value), body: Box::new(result) };
        }
    }
    proof {
        assert(bs.subrange(0, bs.len() as int) =~= bs);
    }
    result
}

fn build_imports(bindings: Vec<(String, String)>, body: Ast) -> (r: Ast)
    ensures
        r@ == wrap_imports(imports_view(bindings@), body@),
{
    let ghost bs = imports_view(bindings@);
    let ghost orig = bindings@;
    let mut bindings = bindings;
    let mut result = body;
    proof {
        assert(bs.subrange(bs.len() as int, bs.len() as int) =~= Seq::<(Seq<char>, Seq<char>)>::empty());
    }
    while bindings.len() > 0
        invariant
            bs.len() == orig.len() >= bindings@.len(),
            bindings@ == orig.take(bindings@.len() as int),
            bs == imports_view(orig),
            result@ == wrap_imports(bs.subrange(bindings@.len() as int, bs.len() as int), body@),
        decreases bindings@.len(),
    {
        let ghost l = bindings@.len();
        let (module, name) = bindings.pop().unwrap();
        proof {
            let sub = bs.subrange(l - 1, bs.len() as int);
            assert(sub.drop_first() =~= bs.subrange(l as int, bs.len() as int));
            assert(sub[0] == (module@, name@));
            assert(bindings@ =~= orig.take(l - 1));
        }
        result = Ast::Import { module, name, body: Box::new(result) };
    }
    proof {
        assert(bs.subrange(0, bs.len() as int) =~= bs);
    }
    result
}

fn expr(ts: &[Token], p: usize) -> (r: Option<(Ast, usize)>)
    requires
        p <= ts@.len(),
    ensures
        agrees(parse_expr(tokens_view(ts@), p as nat), r),
    decreases ts@.len() - p, 4nat,
{
    let _len = ts.len();
    let ghost tv = tokens_view(ts@);
    proof {
        lemma_tokens_view(ts@);
    }
    match atom(ts, p) {
        Some((a, q)) => {
            if p < q && q <= ts.len() {
                apply_rest(ts, a, q)
            } else {
                None
            }
        },
        None => {
            if tok_is(ts, p, 0, &Token::Lambda) {
                lambda(ts, p)
            } else if tok_is(ts, p, 0, &Token::Let) {
                let_binding(ts, p, false)
            } else if tok_is(ts, p, 0, &Token::Letrec) {
                let_binding(ts, p, true)
            } else if tok_is(ts, p, 0, &Token::Import) {
                import(ts, p)
            } else {
                None
            }
        },
    }
}

fn atom(ts: &[Token], p: usize) -> (r: Option<(Ast, usize)>)
    requires
        p <= ts@.len(),
    ensures
        agrees(parse_atom(tokens_view(ts@), p as nat), r),
    decreases ts@.len() - p, 0nat,
{
    let _len = ts.len();
    proof {
        lemma_tokens_view(ts@);
    }
    if p >= ts.len() {
        return None;
    }
    match &ts[p] {
        Token::LParen => {
            match expr(ts, p + 1) {
                Some((e, q)) => {
                    if tok_is(ts, q, 0, &Token::RParen) {
                        Some((e, q + 1))
                    } else {
                        None
                    }
                },
                None => None,
            }
        },
        Token::Ident(name) => Some((Ast::Var(name.clone()), p + 1)),
        Token::Natural(n) => Some((Ast::Nat(*n), p + 1)),
        Token::Boolean(b) => Some((Ast::Boolean(*b), p + 1)),
        _ => None,
    }
}

fn apply_rest(ts: &[Token], first: Ast, start: usize) -> (r: Option<(Ast, usize)>)
    requires
        start <= ts@.len(),
    ensures
        agrees(parse_apply_rest(tokens_view(ts@), first@, start as nat), r),
    decreases ts@.len() - start, 1nat,
{
    let _len = ts.len();
    let ghost tv = tokens_view(ts@);
    let ghost acc0 = first@;
    let ghost p0 = start;
    let mut acc = first;
    let mut p = start;
    loop
        invariant
            p0 == start,
            acc0 == first@,
            p0 <= p <= ts@.len(),
            tv == tokens_view(ts@),
            parse_apply_rest(tv, acc0, p0 as nat) == parse_apply_rest(tv, acc@, p as nat),
        decreases ts@.len() - p,
    {
        match atom(ts, p) {
            Some((a, q)) => {
                if p < q && q <= ts.len() {
                    acc = Ast::Apply { func: Box::new(acc), arg: Box::new(a) };
                    p = q;
                } else {
                    return Some((acc, p));
                }
            },
            None => {
                return Some((acc, p));
            },
        }
    }
}

fn lambda(ts: &[Token], p: usize) -> (r: Option<(Ast, usize)>)
    requires
        p < ts@.len(),
    ensures
        agrees(parse_lambda(tokens_view(ts@), p as nat), r),
    decreases ts@.len() - p, 2nat,
{
    let _len = ts.len();
    let ghost tv = tokens_view(ts@);
    proof {
        lemma_tokens_view(ts@);
    }
    let mut params: Vec<String> = Vec::new();
    let mut q = p + 1;
    loop
        invariant
            p + 1 <= q <= ts@.len(),
            tv == tokens_view(ts@),
            tv.len() == ts@.len(),
            ts@.len() <= usize::MAX,
            ident_run_end(tv, (p + 1) as nat) == ident_run_end(tv, q as nat),
            names_view(params@) == ident_names(tv, (p + 1) as nat, q as nat),
            forall|i: int| p + 1 <= i < q ==> tv[i] is Ident,
        ensures
            p + 1 <= q <= ts@.len(),
            tv == tokens_view(ts@),
            ident_run_end(tv, (p + 1) as nat) == q,
            names_view(params@) == ident_names(tv, (p + 1) as nat, q as nat),
        decreases ts@.len() - q,
    {
        match ident_at(ts, q, 0) {
            Some(n) => {
                proof {
                    assert(ident_names(tv, (p + 1) as nat, (q + 1) as nat) =~= ident_names(tv, (p + 1) as nat, q as nat).push(n@));
                    assert(names_view(params@.push(n)) =~= names_view(params@).push(n@));
                }
                params.push(n);
                q = q + 1;
            },
            None => {
                break;
            },
        }
    }
    if p + 1 < q && tok_is(ts, q, 0, &Token::Dot) {
        match expr(ts, q + 1) {
            Some((body, r)) => Some((build_lambdas(params, body), r)),
            None => None,
        }
    } else {
        None
    }
}

fn assign(ts: &[Token], p: usize) -> (r: Option<((String, Ast), usize)>)
    requires
        p <= ts@.len(),
    ensures
        match parse_assign(tokens_view(ts@), p as nat) {
            Some((b, q)) => r matches Some((b2, q2)) && (b2.0@, b2.1@) == b && q2 as nat == q,
            None => r is None,
        },
    decreases ts@.len() - p, 0nat,
{
    let _len = ts.len();
    proof {
        lemma_tokens_view(ts@);
    }
    match ident_at(ts, p, 0) {
        Some(name) => {
            if tok_is(ts, p, 1, &Token::Equal) {
                match expr(ts, p + 2) {
                    Some((v, q)) => Some(((name, v), q)),
                    None => None,
                }
            } else {
                None
            }
        },
        None => None,
    }
}

fn assign_items(ts: &[Token], start: usize) -> (r: Option<(Vec<(String, Ast)>, usize)>)
    requires
        start <= ts@.len(),
    ensures
        match parse_assign_items(tokens_view(ts@), start as nat, seq![]) {
            Some((bs, q)) => r matches Some((v, q2)) && bindings_view(v@) == bs && q2 as nat == q,
            None => r is None,
        },
    decreases ts@.len() - start, 1nat,
{
    let _len = ts.len();
    let ghost tv = tokens_view(ts@);
    let ghost p0 = start;
    let mut acc: Vec<(String, Ast)> = Vec::new();
    let mut p = start;
    proof {
        assert(bindings_view(acc@) =~= Seq::<(Seq<char>, AstView)>::empty());
    }
    loop
        invariant
            p0 == start,
            p0 <= p <= ts@.len(),
            tv == tokens_view(ts@),
            parse_assign_items(tv, p0 as nat, seq![]) == parse_assign_items(tv, p as nat, bindings_view(acc@)),
        decreases ts@.len() - p,
    {
        match assign(ts, p) {
            Some((b, q)) => {
                let ghost bv = (b.0@, b.1@);
                proof {
                    assert(bindings_view(acc@.push(b)) =~= bindings_view(acc@).push(bv));
                }
                if p < q && q <= ts.len() && tok_is(ts, q, 0, &Token::Comma) {
                    acc.push(b);
                    p = q + 1;
                } else {
                    acc.push(b);
                    return Some((acc, q));
                }
            },
            None => {
                if acc.len() > 0 {
                    return Some((acc, p));
                } else {
                    return None;
                }
            },
        }
    }
}

fn let_binding(ts: &[Token], p: usize, rec: bool) -> (r: Option<(Ast, usize)>)
    requires
        p < ts@.len(),
    ensures
        agrees(parse_let(tokens_view(ts@), p as nat, rec), r),
    decreases ts@.len() - p, 2nat,
{
    let _len = ts.len();
    let start = if tok_is(ts, p, 1, &Token::Comma) {
        p + 2
    } else {
        p + 1
    };
    match assign_items(ts, start) {
        Some((bs, q)) => {
            if p < q && tok_is(ts, q, 0, &Token::In) {
                match expr(ts, q + 1) {
                    Some((body, r)) => Some((build_lets(bs, body, rec), r)),
                    None => None,
                }
            } else {
                None
            }
        },
        None => None,
    }
}

fn import_binding_exec(ts: &[Token], p: usize) -> (r: Option<((String, String), usize)>)
    requires
        p <= ts@.len(),
    ensures
        match import_binding(tokens_view(ts@), p as nat) {
            Some((b, q)) => r matches Some((b2, q2)) && (b2.0@, b2.1@) == b && q2 as nat == q,
            None => r is None,
        },
{
    let _len = ts.len();
    proof {
        lemma_tokens_view(ts@);
    }
    match module_at(ts, p) {
        Some(module) => {
            if tok_is(ts, p, 1, &Token::As) {
                match ident_at(ts, p, 2) {
                    Some(name) => {
                        return Some(((module, name), p + 3));
                    },
                    None => {},
                }
            }
            let name = module.clone();
            Some(((module, name), p + 1))
        },
        None => None,
    }
}

fn import_items_exec(ts: &[Token], start: usize) -> (r: Option<(Vec<(String, String)>, usize)>)
    requires
        start <= ts@.len(),
    ensures
        match import_items(tokens_view(ts@), start as nat, seq![]) {
            Some((bs, q)) => r matches Some((v, q2)) && imports_view(v@) == bs && q2 as nat == q,
            None => r is None,
        },
{
    let _len = ts.len();
    let ghost tv = tokens_view(ts@);
    let ghost p0 = start;
    let mut acc: Vec<(String, String)> = Vec::new();
    let mut p = start;
    proof {
        assert(imports_view(acc@) =~= Seq::<(Seq<char>, Seq<char>)>::empty());
    }
    loop
        invariant
            p0 == start,
            p0 <= p <= ts@.len(),
            tv == tokens_view(ts@),
            import_items(tv, p0 as nat, seq![]) == import_items(tv, p as nat, imports_view(acc@)),
        decreases ts@.len() - p,
    {
        match import_binding_exec(ts, p) {
            Some((b, q)) => {
                let ghost bv = (b.0@, b.1@);
                proof {
                    assert(imports_view(acc@.push(b)) =~= imports_view(acc@).push(bv));
                }
                if p < q && q <= ts.len() && tok_is(ts, q, 0, &Token::Comma) {
                    acc.push(b);
                    p = q + 1;
                } else {
                    acc.push(b);
                    return Some((acc, q));
                }
            },
            None => {
                if acc.len() > 0 {
                    return Some((acc, p));
                } else {
                    return None;
                }
            },
        }
    }
}

fn import(ts: &[Token], p: usize) -> (r: Option<(Ast, usize)>)
    requires
        p < ts@.len(),
    ensures
        agrees(parse_import(tokens_view(ts@), p as nat), r),
    decreases ts@.len() - p, 2nat,
{
    let _len = ts.len();
    let start = if tok_is(ts, p, 1, &Token::Comma) {
        p + 2
    } else {
        p + 1
    };
    match import_items_exec(ts, start) {
        Some((bs, q)) => {
            if p < q && tok_is(ts, q, 0, &Token::In) {
                match expr(ts, q + 1) {
                    Some((body, r)) => Some((build_imports(bs, body), r)),
                    None => None,
                }
            } else {
                None
            }
        },
        None => None,
    }
}

/// The token position where parsing stopped.
#[derive(Debug)]
pub struct ParserError {
    pub position: usize,
}

impl ParserError {
    /// The error message.
    pub fn to_display_string(&self) -> (s: String)
        ensures
            s@ == "Parser error at token "@ + decimal(self.position as nat),
    {
        let mut s = "Parser error at token ".to_owned();
        let n = crate::text::usize_to_string(self.position);
        push_str(&mut s, n.as_str());
        s
    }
}

/// Parses a whole program.
pub fn parse(tokens: &[Token]) -> (r: Result<Ast, ParserError>)
    ensures
        match parse_spec(tokens_view(tokens@)) {
            Ok(a) => r matches Ok(a2) && a2@ == a,
            Err(p) => r matches Err(e) && e.position == p,
        },
{
    let _len = tokens.len();
    let ts = tokens;
    match expr(ts, 0) {
        Some((a, q)) => {
            if q == ts.len() {
                Ok(a)
            } else {
                Err(ParserError { position: q })
            }
        },
        None => Err(ParserError { position: 0 }),
    }
}

} // verus!
