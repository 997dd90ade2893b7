//! A printed expression reads back as itself.
use crate::lexer::{
    is_digit, is_ident_continue, is_ident_start, is_space, lemma_run_end, lemma_token_at, lex_from,
    line_end, run_end, skip, token_at, tokenize_spec, word_token, TokenView,
};
use crate::parser::{
    ident_names, ident_run_end, parse_apply_rest, parse_atom, parse_expr, parse_lambda,
    parse_spec, wrap_lambdas,
};
use crate::parser_laws::{
    agree_on, ends_expr, lemma_frame_atom, lemma_progress_apply_rest, lemma_progress_atom,
};
use crate::import::{stack_ok, ImportErrorView, ResolutionView};
use crate::syntax::desugar::desugar_spec;
use crate::syntax::{AstView, ExprView};
use vstd::prelude::*;

verus! {

/// A lexing result with its failure position moved `k` characters on.
pub open spec fn moved_lex(r: Result<Seq<TokenView>, nat>, k: nat) -> Result<Seq<TokenView>, nat> {
    match r {
        Ok(ts) => Ok(ts),
        Err(p) => Err(p + k),
    }
}

/// A token and its end moved `k` characters on.
pub open spec fn moved_token(r: Option<(TokenView, nat)>, k: nat) -> Option<(TokenView, nat)> {
    match r {
        Some((t, e)) => Some((t, e + k)),
        None => None,
    }
}

proof fn lemma_lex_suffix_run_end(p: Seq<char>, s: Seq<char>, j: nat, f: spec_fn(char) -> bool)
    requires
        j <= s.len(),
    ensures
        run_end(p + s, p.len() + j, f) == p.len() + run_end(s, j, f),
    decreases s.len() - j,
{
    let t = p + s;
    if j < s.len() {
        assert(t[(p.len() + j) as int] == s[j as int]);
        if f(s[j as int]) {
            lemma_lex_suffix_run_end(p, s, j + 1, f);
        }
    }
}

proof fn lemma_lex_suffix_skip(p: Seq<char>, s: Seq<char>, j: nat)
    requires
        j <= s.len(),
    ensures
        skip(p + s, p.len() + j) == p.len() + skip(s, j),
    decreases s.len() - j,
{
    let t = p + s;
    if j < s.len() {
        assert(t[(p.len() + j) as int] == s[j as int]);
    }
    if j + 1 < s.len() {
        assert(t[(p.len() + j + 1) as int] == s[j + 1int]);
    }
    if j < s.len() && is_space(s[j as int]) {
        lemma_lex_suffix_skip(p, s, j + 1);
    } else if j + 1 < s.len() && s[j as int] == '-' && s[j + 1int] == '-' {
        lemma_run_end(s, j + 2, |c: char| c != '\n');
        lemma_lex_suffix_run_end(p, s, j + 2, |c: char| c != '\n');
        lemma_lex_suffix_skip(p, s, line_end(s, j + 2));
    }
}

proof fn lemma_lex_suffix_token_at(p: Seq<char>, s: Seq<char>, j: nat)
    requires
        j < s.len(),
    ensures
        token_at(p + s, p.len() + j) == moved_token(token_at(s, j), p.len()),
{
    let t = p + s;
    let k = p.len();
    assert(t[(k + j) as int] == s[j as int]);
    let c = s[j as int];
    if is_ident_start(c) {
        let f = |c: char| is_ident_continue(c);
        lemma_lex_suffix_run_end(p, s, j + 1, f);
        lemma_run_end(s, j + 1, f);
        let e = run_end(s, j + 1, f);
        assert(t.subrange((k + j) as int, (k + e) as int) =~= s.subrange(j as int, e as int));
    } else if is_digit(c) {
        let f = |c: char| is_digit(c);
        lemma_lex_suffix_run_end(p, s, j, f);
        lemma_run_end(s, j, f);
        let e = run_end(s, j, f);
        assert(t.subrange((k + j) as int, (k + e) as int) =~= s.subrange(j as int, e as int));
    }
}

/// Lexing from a position depends only on the text from there on.
proof fn lemma_lex_suffix(p: Seq<char>, s: Seq<char>, j: nat)
    requires
        j <= s.len(),
    ensures
        lex_from(p + s, p.len() + j) == moved_lex(lex_from(s, j), p.len()),
    decreases s.len() - j,
{
    lemma_lex_suffix_skip(p, s, j);
    lemma_skip_within(s, j);
    let k = skip(s, j);
    if k < s.len() {
        lemma_lex_suffix_token_at(p, s, k);
        lemma_token_at(s, k);
        if let Some((tok, e)) = token_at(s, k) {
            if j < e <= s.len() {
                lemma_lex_suffix(p, s, e);
            }
        }
    }
}

proof fn lemma_skip_within(s: Seq<char>, j: nat)
    requires
        j <= s.len(),
    ensures
        j <= skip(s, j) <= s.len(),
    decreases s.len() - j,
{
    if j < s.len() && is_space(s[j as int]) {
        lemma_skip_within(s, j + 1);
    } else if j + 1 < s.len() && s[j as int] == '-' && s[j + 1int] == '-' {
        lemma_run_end(s, j + 2, |c: char| c != '\n');
        lemma_skip_within(s, line_end(s, j + 2));
    }
}

/// No `-` in the text, so no comment.
pub open spec fn no_dash(s: Seq<char>) -> bool {
    forall|k: int| 0 <= k < s.len() ==> #[trigger] s[k] != '-'
}

/// Two texts that can be put side by side without joining a word of the
/// first to a word of the second.
pub open spec fn joinable(s1: Seq<char>, s2: Seq<char>) -> bool {
    s1.len() == 0 || s2.len() == 0 || !is_ident_continue(s1.last()) || !is_ident_continue(s2[0])
}

proof fn lemma_concat_run_end(s1: Seq<char>, s2: Seq<char>, j: nat, f: spec_fn(char) -> bool)
    requires
        j <= s1.len(),
        run_end(s1, j, f) == s1.len() ==> (s2.len() == 0 || !f(s2[0])),
    ensures
        run_end(s1 + s2, j, f) == run_end(s1, j, f),
    decreases s1.len() - j,
{
    let t = s1 + s2;
    if j < s1.len() {
        assert(t[j as int] == s1[j as int]);
        if f(s1[j as int]) {
            lemma_concat_run_end(s1, s2, j + 1, f);
        }
    } else if s2.len() > 0 {
        assert(t[j as int] == s2[0]);
    }
}

proof fn lemma_concat_skip(s1: Seq<char>, s2: Seq<char>, j: nat)
    requires
        j <= s1.len(),
        no_dash(s1),
    ensures
        skip(s1 + s2, j) == if skip(s1, j) < s1.len() {
            skip(s1, j)
        } else {
            s1.len() + skip(s2, 0)
        },
        skip(s1, j) <= s1.len(),
    decreases s1.len() - j,
{
    let t = s1 + s2;
    if j < s1.len() {
        assert(t[j as int] == s1[j as int]);
        assert(s1[j as int] != '-');
        if is_space(s1[j as int]) {
            lemma_concat_skip(s1, s2, j + 1);
        }
    } else {
        lemma_lex_suffix_skip(s1, s2, 0);
    }
}

proof fn lemma_concat_token_at(s1: Seq<char>, s2: Seq<char>, j: nat)
    requires
        j < s1.len(),
        joinable(s1, s2),
    ensures
        token_at(s1 + s2, j) == token_at(s1, j),
{
    let t = s1 + s2;
    assert(t[j as int] == s1[j as int]);
    let c = s1[j as int];
    if is_ident_start(c) {
        let f = |c: char| is_ident_continue(c);
        lemma_run_end(s1, j + 1, f);
        let e = run_end(s1, j + 1, f);
        if e == s1.len() {
            if j + 1 < s1.len() {
                assert(f(s1[s1.len() - 1]));
            }
        }
        lemma_concat_run_end(s1, s2, j + 1, f);
        assert(t.subrange(j as int, e as int) =~= s1.subrange(j as int, e as int));
    } else if is_digit(c) {
        let f = |c: char| is_digit(c);
        lemma_run_end(s1, j, f);
        let e = run_end(s1, j, f);
        if e == s1.len() {
            assert(f(s1[s1.len() - 1]));
        }
        lemma_concat_run_end(s1, s2, j, f);
        assert(t.subrange(j as int, e as int) =~= s1.subrange(j as int, e as int));
    }
}

proof fn lemma_concat_lex_from(s1: Seq<char>, s2: Seq<char>, j: nat)
    requires
        j <= s1.len(),
        no_dash(s1),
        joinable(s1, s2),
        lex_from(s1, j) is Ok,
        lex_from(s2, 0) is Ok,
    ensures
        lex_from(s1 + s2, j) == Ok::<Seq<TokenView>, nat>(
            lex_from(s1, j)->Ok_0 + lex_from(s2, 0)->Ok_0,
        ),
    decreases s1.len() - j,
{
    let t = s1 + s2;
    lemma_concat_skip(s1, s2, j);
    let k = skip(s1, j);
    if k < s1.len() {
        lemma_concat_token_at(s1, s2, k);
        lemma_token_at(s1, k);
        let (tok, e) = token_at(s1, k)->Some_0;
        lemma_concat_lex_from(s1, s2, e);
        let rest = lex_from(s1, e)->Ok_0;
        assert(seq![tok] + rest + lex_from(s2, 0)->Ok_0 =~= seq![tok] + (rest + lex_from(s2, 0)->Ok_0));
    } else {
        assert(lex_from(s1, j)->Ok_0 == Seq::<TokenView>::empty());
        lemma_lex_suffix(s1, s2, 0);
        lemma_skip_within(s2, 0);
        let k2 = skip(s2, 0);
        assert(lex_from(s2, 0)->Ok_0 + Seq::<TokenView>::empty() =~= lex_from(s2, 0)->Ok_0);
        if k2 < s2.len() {
            lemma_lex_suffix_token_at(s1, s2, k2);
            lemma_token_at(s2, k2);
            let (tok, e) = token_at(s2, k2)->Some_0;
            lemma_lex_suffix(s1, s2, e);
        }
        assert(Seq::<TokenView>::empty() + lex_from(s2, 0)->Ok_0 =~= lex_from(s2, 0)->Ok_0);
    }
}

/// A name that reads back as itself: an identifier that is not a keyword.
pub open spec fn plain_name(n: Seq<char>) -> bool {
    &&& n.len() > 0
    &&& is_ident_start(n[0])
    &&& forall|k: int| 0 <= k < n.len() ==> is_ident_continue(#[trigger] n[k])
    &&& word_token(n) == TokenView::Ident(n)
}

/// Every variable and parameter of the expression has a plain name.
pub open spec fn plain_names(e: ExprView) -> bool
    decreases e,
{
    match e {
        ExprView::Var(n) => plain_name(n),
        ExprView::Lambda { param, body } => plain_name(param) && plain_names(*body),
        ExprView::Apply { func, arg } => plain_names(*func) && plain_names(*arg),
    }
}

/// `(`, the tokens, `)`.
pub open spec fn parenthesized(ts: Seq<TokenView>) -> Seq<TokenView> {
    seq![TokenView::LParen] + ts + seq![TokenView::RParen]
}

/// The tokens of the standard notation of an expression.
pub open spec fn expr_tokens(e: ExprView) -> Seq<TokenView>
    decreases e,
{
    match e {
        ExprView::Var(n) => seq![TokenView::Ident(n)],
        ExprView::Lambda { param, body } => seq![
            TokenView::Lambda,
            TokenView::Ident(param),
            TokenView::Dot,
        ] + expr_tokens(*body),
        ExprView::Apply { func, arg } => {
            let f = match *func {
                ExprView::Var(_) => expr_tokens(*func),
                ExprView::Apply { .. } => expr_tokens(*func),
                _ => parenthesized(expr_tokens(*func)),
            };
            let a = match *arg {
                ExprView::Var(_) => expr_tokens(*arg),
                _ => parenthesized(expr_tokens(*arg)),
            };
            f + a
        },
    }
}

proof fn lemma_no_dash_concat(a: Seq<char>, b: Seq<char>)
    requires
        no_dash(a),
        no_dash(b),
    ensures
        no_dash(a + b),
{
    assert forall|k: int| 0 <= k < (a + b).len() implies #[trigger] (a + b)[k] != '-' by {
        if k < a.len() {
            assert((a + b)[k] == a[k]);
        } else {
            assert((a + b)[k] == b[k - a.len()]);
        }
    }
}

proof fn lemma_lex_symbol(c: char, tok: TokenView)
    requires
        c == '\\' && tok == TokenView::Lambda || c == '(' && tok == TokenView::LParen || c == ')'
            && tok == TokenView::RParen,
    ensures
        lex_from(seq![c], 0) == Ok::<Seq<TokenView>, nat>(seq![tok]),
        no_dash(seq![c]),
{
    let s = seq![c];
    assert(skip(s, 0) == 0);
    assert(token_at(s, 0) == Some((tok, 1nat)));
    assert(skip(s, 1) == 1);
    assert(lex_from(s, 1) == Ok::<Seq<TokenView>, nat>(seq![]));
    assert(seq![tok] + Seq::<TokenView>::empty() =~= seq![tok]);
}

proof fn lemma_lex_dot()
    ensures
        lex_from(seq![' ', '.', ' '], 0) == Ok::<Seq<TokenView>, nat>(seq![TokenView::Dot]),
        no_dash(seq![' ', '.', ' ']),
{
    let s = seq![' ', '.', ' '];
    assert(skip(s, 2) == 3) by {
        assert(skip(s, 3) == 3);
    }
    assert(lex_from(s, 2) == Ok::<Seq<TokenView>, nat>(seq![]));
    assert(skip(s, 0) == 1) by {
        assert(skip(s, 1) == 1);
    }
    assert(token_at(s, 1) == Some((TokenView::Dot, 2nat)));
    assert(seq![TokenView::Dot] + Seq::<TokenView>::empty() =~= seq![TokenView::Dot]);
}

proof fn lemma_lex_space()
    ensures
        lex_from(seq![' '], 0) == Ok::<Seq<TokenView>, nat>(seq![]),
        no_dash(seq![' ']),
{
    let s = seq![' '];
    assert(skip(s, 0) == 1) by {
        assert(skip(s, 1) == 1);
    }
}

proof fn lemma_run_to_end(n: Seq<char>, j: nat)
    requires
        j <= n.len(),
        forall|k: int| 0 <= k < n.len() ==> is_ident_continue(#[trigger] n[k]),
    ensures
        run_end(n, j, |c: char| is_ident_continue(c)) == n.len(),
    decreases n.len() - j,
{
    if j < n.len() {
        assert(is_ident_continue(n[j as int]));
        lemma_run_to_end(n, j + 1);
    }
}

proof fn lemma_lex_name(n: Seq<char>)
    requires
        plain_name(n),
    ensures
        lex_from(n, 0) == Ok::<Seq<TokenView>, nat>(seq![TokenView::Ident(n)]),
        no_dash(n),
{
    assert(is_ident_continue(n[0]));
    assert(skip(n, 0) == 0);
    lemma_run_to_end(n, 1);
    assert(n.subrange(0, n.len() as int) =~= n);
    assert(token_at(n, 0) == Some((TokenView::Ident(n), n.len())));
    assert(skip(n, n.len()) == n.len());
    assert(lex_from(n, n.len()) == Ok::<Seq<TokenView>, nat>(seq![]));
    assert(seq![TokenView::Ident(n)] + Seq::<TokenView>::empty() =~= seq![TokenView::Ident(n)]);
    assert forall|k: int| 0 <= k < n.len() implies #[trigger] n[k] != '-' by {
        assert(is_ident_continue(n[k]));
    }
}

/// Lexing `s1 + s2` where each part lexes and they join safely.
proof fn lemma_lex_join(s1: Seq<char>, s2: Seq<char>)
    requires
        no_dash(s1),
        no_dash(s2),
        joinable(s1, s2),
        lex_from(s1, 0) is Ok,
        lex_from(s2, 0) is Ok,
    ensures
        lex_from(s1 + s2, 0) == Ok::<Seq<TokenView>, nat>(
            lex_from(s1, 0)->Ok_0 + lex_from(s2, 0)->Ok_0,
        ),
        no_dash(s1 + s2),
{
    lemma_concat_lex_from(s1, s2, 0);
    lemma_no_dash_concat(s1, s2);
}

proof fn lemma_lex_parenthesized(d: Seq<char>)
    requires
        no_dash(d),
        lex_from(d, 0) is Ok,
    ensures
        lex_from(seq!['('] + d + seq![')'], 0) == Ok::<Seq<TokenView>, nat>(
            parenthesized(lex_from(d, 0)->Ok_0),
        ),
        no_dash(seq!['('] + d + seq![')']),
{
    lemma_lex_symbol('(', TokenView::LParen);
    lemma_lex_symbol(')', TokenView::RParen);
    lemma_lex_join(seq!['('], d);
    lemma_lex_join(seq!['('] + d, seq![')']);
}

/// `\param . ` lexes as a lambda, the name and a dot.
proof fn lemma_lex_lambda_head(param: Seq<char>)
    requires
        plain_name(param),
    ensures
        lex_from(seq!['\\'] + param + seq![' ', '.', ' '], 0) == Ok::<Seq<TokenView>, nat>(
            seq![TokenView::Lambda, TokenView::Ident(param), TokenView::Dot],
        ),
        no_dash(seq!['\\'] + param + seq![' ', '.', ' ']),
{
    lemma_lex_symbol('\\', TokenView::Lambda);
    lemma_lex_name(param);
    lemma_lex_dot();
    let x1 = seq!['\\'] + param;
    lemma_lex_join(seq!['\\'], param);
    lemma_lex_join(x1, seq![' ', '.', ' ']);
    assert(seq![TokenView::Lambda] + seq![TokenView::Ident(param)] + seq![TokenView::Dot] =~= seq![
        TokenView::Lambda,
        TokenView::Ident(param),
        TokenView::Dot,
    ]);
}

proof fn lemma_lex_display_lambda(param: Seq<char>, body: ExprView)
    requires
        plain_name(param),
        lex_from(body.display(), 0) == Ok::<Seq<TokenView>, nat>(expr_tokens(body)),
        no_dash(body.display()),
    ensures
        ({
            let e = ExprView::Lambda { param, body: Box::new(body) };
            &&& lex_from(e.display(), 0) == Ok::<Seq<TokenView>, nat>(expr_tokens(e))
            &&& no_dash(e.display())
        }),
{
    lemma_lex_lambda_head(param);
    let x2 = seq!['\\'] + param + seq![' ', '.', ' '];
    lemma_lex_join(x2, body.display());
}

/// The notation of a function or argument of an application: bare, or in
/// parentheses.
spec fn part_display(e: ExprView, bare: bool) -> Seq<char> {
    if bare {
        e.display()
    } else {
        seq!['('] + e.display() + seq![')']
    }
}

spec fn part_tokens(e: ExprView, bare: bool) -> Seq<TokenView> {
    if bare {
        expr_tokens(e)
    } else {
        parenthesized(expr_tokens(e))
    }
}

proof fn lemma_lex_part(e: ExprView, bare: bool)
    requires
        lex_from(e.display(), 0) == Ok::<Seq<TokenView>, nat>(expr_tokens(e)),
        no_dash(e.display()),
    ensures
        lex_from(part_display(e, bare), 0) == Ok::<Seq<TokenView>, nat>(part_tokens(e, bare)),
        no_dash(part_display(e, bare)),
{
    if !bare {
        lemma_lex_parenthesized(e.display());
    }
}

proof fn lemma_lex_display_apply(func: ExprView, arg: ExprView)
    requires
        lex_from(func.display(), 0) == Ok::<Seq<TokenView>, nat>(expr_tokens(func)),
        no_dash(func.display()),
        lex_from(arg.display(), 0) == Ok::<Seq<TokenView>, nat>(expr_tokens(arg)),
        no_dash(arg.display()),
    ensures
        ({
            let e = ExprView::Apply { func: Box::new(func), arg: Box::new(arg) };
            &&& lex_from(e.display(), 0) == Ok::<Seq<TokenView>, nat>(expr_tokens(e))
            &&& no_dash(e.display())
        }),
{
    let fb = func is Var || func is Apply;
    let ab = arg is Var;
    lemma_lex_part(func, fb);
    lemma_lex_part(arg, ab);
    lemma_lex_space();
    let fd = part_display(func, fb);
    let ad = part_display(arg, ab);
    lemma_lex_join(fd, seq![' ']);
    lemma_lex_join(fd + seq![' '], ad);
    let ft = part_tokens(func, fb);
    assert(ft + Seq::<TokenView>::empty() =~= ft);
}

/// The standard notation of an expression with plain names lexes to its
/// tokens.
proof fn lemma_lex_display(e: ExprView)
    requires
        plain_names(e),
    ensures
        lex_from(e.display(), 0) == Ok::<Seq<TokenView>, nat>(expr_tokens(e)),
        no_dash(e.display()),
    decreases e,
{
    match e {
        ExprView::Var(n) => {
            lemma_lex_name(n);
        },
        ExprView::Lambda { param, body } => {
            lemma_lex_display(*body);
            lemma_lex_display_lambda(param, *body);
        },
        ExprView::Apply { func, arg } => {
            lemma_lex_display(*func);
            lemma_lex_display(*arg);
            lemma_lex_display_apply(*func, *arg);
        },
    }
}

/// The parsed form of an expression: the same tree.
pub open spec fn ast_of(e: ExprView) -> AstView
    decreases e,
{
    match e {
        ExprView::Var(n) => AstView::Var(n),
        ExprView::Lambda { param, body } => AstView::Lambda { param, body: Box::new(ast_of(*body)) },
        ExprView::Apply { func, arg } => AstView::Apply {
            func: Box::new(ast_of(*func)),
            arg: Box::new(ast_of(*arg)),
        },
    }
}

/// The tokens of an expression as an atom: a variable, or in parentheses.
pub open spec fn atom_tokens(e: ExprView) -> Seq<TokenView> {
    match e {
        ExprView::Var(_) => expr_tokens(e),
        _ => parenthesized(expr_tokens(e)),
    }
}

proof fn lemma_tokens_start(e: ExprView)
    ensures
        expr_tokens(e).len() > 0,
        e is Lambda ==> expr_tokens(e)[0] is Lambda,
        !(e is Lambda) ==> (expr_tokens(e)[0] is Ident || expr_tokens(e)[0] is LParen),
    decreases e,
{
    match e {
        ExprView::Var(_) => {},
        ExprView::Lambda { body, .. } => {
            lemma_tokens_start(*body);
        },
        ExprView::Apply { func, arg } => {
            lemma_tokens_start(*func);
            lemma_tokens_start(*arg);
        },
    }
}

/// An application chain parsed up to `m` in `ts1` goes on from there in a
/// text `ts2` that has the same tokens up to `m`.
proof fn lemma_apply_rest_split(
    ts1: Seq<TokenView>,
    ts2: Seq<TokenView>,
    acc: AstView,
    p: nat,
)
    requires
        p <= ts1.len(),
        parse_apply_rest(ts1, acc, p) matches Some((_, m)) && agree_on(ts1, ts2, p, m),
    ensures
        parse_apply_rest(ts2, acc, p) == parse_apply_rest(
            ts2,
            parse_apply_rest(ts1, acc, p)->Some_0.0,
            parse_apply_rest(ts1, acc, p)->Some_0.1,
        ),
    decreases ts1.len() - p,
{
    lemma_progress_atom(ts1, p);
    if let Some((x, q1)) = parse_atom(ts1, p) {
        let acc2 = AstView::Apply { func: Box::new(acc), arg: Box::new(x) };
        lemma_progress_apply_rest(ts1, acc2, q1);
        lemma_frame_atom(ts1, ts2, p);
        lemma_apply_rest_split(ts1, ts2, acc2, q1);
    }
}

proof fn lemma_parse_atom_tokens(x: ExprView, ts: Seq<TokenView>, p0: nat)
    requires
        plain_names(x),
        p0 + atom_tokens(x).len() <= ts.len(),
        ts.subrange(p0 as int, (p0 + atom_tokens(x).len()) as int) == atom_tokens(x),
    ensures
        parse_atom(ts, p0) == Some((ast_of(x), p0 + atom_tokens(x).len())),
    decreases x, 2nat,
{
    let n = atom_tokens(x).len();
    assert(ts[p0 as int] == atom_tokens(x)[0]);
    match x {
        ExprView::Var(_) => {},
        _ => {
            let inner = expr_tokens(x);
            assert(ts[(p0 + n - 1) as int] == atom_tokens(x)[n - 1]);
            assert(ts.subrange(p0 + 1int, p0 + 1int + inner.len()) =~= inner) by {
                assert forall|k: int| 0 <= k < inner.len() implies ts.subrange(p0 + 1int, p0 + 1int
                    + inner.len())[k] == inner[k] by {
                    assert(ts[p0 + 1 + k] == atom_tokens(x)[1 + k]);
                }
            }
            lemma_parse_expr_tokens(x, ts, p0 + 1);
        },
    }
}

/// The tokens of an expression with plain names, followed by what cannot
/// continue it, parse as the expression.
proof fn lemma_parse_expr_tokens(e: ExprView, ts: Seq<TokenView>, p0: nat)
    requires
        plain_names(e),
        p0 + expr_tokens(e).len() <= ts.len(),
        ts.subrange(p0 as int, (p0 + expr_tokens(e).len()) as int) == expr_tokens(e),
        ends_expr(ts, p0 + expr_tokens(e).len()),
    ensures
        parse_expr(ts, p0) == Some((ast_of(e), p0 + expr_tokens(e).len())),
    decreases e, 1nat,
{
    let n = expr_tokens(e).len();
    assert forall|k: int| 0 <= k < n implies ts[p0 + k] == #[trigger] expr_tokens(e)[k] by {
        assert(ts.subrange(p0 as int, (p0 + n) as int)[k] == ts[p0 + k]);
    }
    match e {
        ExprView::Var(name) => {
            assert(ts[p0 as int] == expr_tokens(e)[0]);
            assert(parse_atom(ts, p0) == Some((AstView::Var(name), p0 + 1)));
            assert(parse_atom(ts, p0 + 1) is None);
            assert(parse_apply_rest(ts, AstView::Var(name), p0 + 1) == Some((AstView::Var(name), p0 + 1)));
            assert(parse_expr(ts, p0) == Some((ast_of(e), p0 + n)));
        },
        ExprView::Lambda { param, body } => {
            assert(ts[p0 as int] == expr_tokens(e)[0]);
            assert(ts[p0 + 1int] == expr_tokens(e)[1]);
            assert(ts[p0 + 2int] == expr_tokens(e)[2]);
            let bt = expr_tokens(*body);
            assert(ts.subrange(p0 + 3int, (p0 + n) as int) =~= bt) by {
                assert forall|k: int| 0 <= k < bt.len() implies ts.subrange(p0 + 3int, (p0 + n) as int)[k]
                    == bt[k] by {
                    assert(ts[p0 + 3 + k] == expr_tokens(e)[3 + k]);
                }
            }
            lemma_parse_expr_tokens(*body, ts, p0 + 3);
            assert(ident_run_end(ts, p0 + 2) == p0 + 2);
            assert(ident_run_end(ts, p0 + 1) == p0 + 2);
            assert(ident_names(ts, p0 + 1, p0 + 2) =~= seq![param]);
            assert(seq![param].drop_first() =~= Seq::<Seq<char>>::empty());
            assert(parse_atom(ts, p0) is None);
            let b = ast_of(*body);
            assert(wrap_lambdas(Seq::<Seq<char>>::empty(), b) == b);
            assert(wrap_lambdas(seq![param], b) == AstView::Lambda { param, body: Box::new(b) });
            assert(parse_lambda(ts, p0) == Some((ast_of(e), p0 + n)));
            assert(parse_expr(ts, p0) == Some((ast_of(e), p0 + n)));
        },
        ExprView::Apply { func, arg } => {
            lemma_parse_apply_tokens(*func, *arg, ts, p0);
            assert(e == app(*func, *arg));
        },
    }
}

/// The application of `func` to `arg`.
pub open spec fn app(func: ExprView, arg: ExprView) -> ExprView {
    ExprView::Apply { func: Box::new(func), arg: Box::new(arg) }
}

proof fn lemma_parse_apply_tokens(func: ExprView, arg: ExprView, ts: Seq<TokenView>, p0: nat)
    requires
        plain_names(func),
        plain_names(arg),
        p0 + expr_tokens(app(func, arg)).len() <= ts.len(),
        ts.subrange(p0 as int, (p0 + expr_tokens(app(func, arg)).len()) as int) == expr_tokens(app(func, arg)),
        ends_expr(ts, p0 + expr_tokens(app(func, arg)).len()),
    ensures
        parse_expr(ts, p0) == Some((ast_of(app(func, arg)), p0 + expr_tokens(app(func, arg)).len())),
    decreases app(func, arg), 0nat,
{
    let e = app(func, arg);
    let n = expr_tokens(e).len();
    let ft = if func is Apply { expr_tokens(func) } else { atom_tokens(func) };
    let at = atom_tokens(arg);
    assert(expr_tokens(e) == ft + at);
    let mf = p0 + ft.len();
    assert(ts.subrange(p0 as int, mf as int) =~= ft) by {
        assert forall|k: int| 0 <= k < ft.len() implies ts.subrange(p0 as int, mf as int)[k]
            == ft[k] by {
            assert(ts.subrange(p0 as int, (p0 + n) as int)[k] == (ft + at)[k]);
        }
    }
    assert(ts.subrange(mf as int, (p0 + n) as int) =~= at) by {
        assert forall|k: int| 0 <= k < at.len() implies ts.subrange(mf as int, (p0 + n) as int)[k]
            == at[k] by {
            assert(ts.subrange(p0 as int, (p0 + n) as int)[ft.len() + k] == (ft + at)[ft.len() + k]);
        }
    }
    lemma_parse_atom_tokens(arg, ts, mf);
    if func is Apply {
        let pre = ts.subrange(0, mf as int);
        assert(pre.subrange(p0 as int, mf as int) =~= ft);
        lemma_parse_expr_tokens(func, pre, p0);
        lemma_tokens_start(func);
        assert(pre[p0 as int] == ft[0]);
        lemma_progress_atom(pre, p0);
        let (h, q0) = parse_atom(pre, p0)->Some_0;
        lemma_progress_apply_rest(pre, h, q0);
        assert(agree_on(pre, ts, p0, mf));
        lemma_frame_atom(pre, ts, p0);
        lemma_apply_rest_split(pre, ts, h, q0);
        assert(parse_apply_rest(ts, h, q0) == parse_apply_rest(ts, ast_of(func), mf));
    } else {
        lemma_parse_atom_tokens(func, ts, p0);
    }
    let whole = AstView::Apply { func: Box::new(ast_of(func)), arg: Box::new(ast_of(arg)) };
    assert(parse_atom(ts, p0 + n) is None);
    assert(parse_apply_rest(ts, whole, p0 + n) == Some((whole, p0 + n)));
    assert(parse_apply_rest(ts, ast_of(func), mf) == Some((whole, p0 + n)));
}

proof fn lemma_desugar_ast_of(
    e: ExprView,
    files: Seq<(Seq<char>, Seq<char>)>,
    stack: Seq<ResolutionView>,
    dir: Option<Seq<char>>,
)
    requires
        stack_ok(files, stack),
    ensures
        desugar_spec(ast_of(e), files, stack, dir) == (Ok::<ExprView, ImportErrorView>(e), stack),
    decreases e,
{
    match e {
        ExprView::Var(_) => {},
        ExprView::Lambda { param, body } => {
            lemma_desugar_ast_of(*body, files, stack, dir);
        },
        ExprView::Apply { func, arg } => {
            lemma_desugar_ast_of(*func, files, stack, dir);
            lemma_desugar_ast_of(*arg, files, stack, dir);
        },
    }
}

/// A printed expression reads back as itself: when its names are
/// identifiers that are not keywords, its standard notation (what
/// `Expr::to_display_string` gives) lexes to its tokens, which parse to its
/// tree, which desugars to the expression.
pub proof fn law_display_reads_back(e: ExprView)
    requires
        plain_names(e),
    ensures
        tokenize_spec(e.display()) == Ok::<Seq<TokenView>, nat>(expr_tokens(e)),
        parse_spec(expr_tokens(e)) == Ok::<AstView, nat>(ast_of(e)),
        desugar_spec(ast_of(e), seq![], seq![], None).0 == Ok::<ExprView, ImportErrorView>(e),
{
    lemma_lex_display(e);
    lemma_tokens_start(e);
    let ts = expr_tokens(e);
    assert(ts.subrange(0, ts.len() as int) =~= ts);
    lemma_parse_expr_tokens(e, ts, 0);
    lemma_desugar_ast_of(e, seq![], seq![], None);
}

} // verus!
