use crate::text::{chars_of, decimal, push_char, push_str};
use vstd::prelude::*;

verus! {

#[derive(Debug)]
pub enum Token {
    Lambda,
    Dot,
    LParen,
    RParen,
    Let,
    Letrec,
    Import,
    From,
    As,
    In,
    Comma,
    Equal,
    Ident(String),
    Natural(usize),
    Boolean(bool),
}

/// The mathematical model of a token.
pub enum TokenView {
    Lambda,
    Dot,
    LParen,
    RParen,
    Let,
    Letrec,
    Import,
    From,
    As,
    In,
    Comma,
    Equal,
    Ident(Seq<char>),
    Natural(nat),
    Boolean(bool),
}

impl View for Token {
    type V = TokenView;

    open spec fn view(&self) -> TokenView {
        match self {
            Token::Lambda => TokenView::Lambda,
            Token::Dot => TokenView::Dot,
            Token::LParen => TokenView::LParen,
            Token::RParen => TokenView::RParen,
            Token::Let => TokenView::Let,
            Token::Letrec => TokenView::Letrec,
            Token::Import => TokenView::Import,
            Token::From => TokenView::From,
            Token::As => TokenView::As,
            Token::In => TokenView::In,
            Token::Comma => TokenView::Comma,
            Token::Equal => TokenView::Equal,
            Token::Ident(name) => TokenView::Ident(name@),
            Token::Natural(n) => TokenView::Natural(*n as nat),
            Token::Boolean(b) => TokenView::Boolean(*b),
        }
    }
}

impl TokenView {
    /// How the token is written.
    pub open spec fn display(self) -> Seq<char> {
        match self {
            TokenView::Lambda => "\\"@,
            TokenView::Dot => "."@,
            TokenView::LParen => "("@,
            TokenView::RParen => ")"@,
            TokenView::Let => "let"@,
            TokenView::Letrec => "letrec"@,
            TokenView::Import => "import"@,
            TokenView::From => "from"@,
            TokenView::As => "as"@,
            TokenView::In => "in"@,
            TokenView::Comma => ","@,
            TokenView::Equal => "="@,
            TokenView::Ident(name) => name,
            TokenView::Natural(n) => decimal(n),
            TokenView::Boolean(b) => if b {
                "true"@
            } else {
                "false"@
            },
        }
    }
}

impl Token {
    /// How the token is written.
    pub fn to_display_string(&self) -> (s: String)
        ensures
            s@ == self@.display(),
    {
        match self {
            Token::Lambda => "\\".to_owned(),
            Token::Dot => ".".to_owned(),
            Token::LParen => "(".to_owned(),
            Token::RParen => ")".to_owned(),
            Token::Let => "let".to_owned(),
            Token::Letrec => "letrec".to_owned(),
            Token::Import => "import".to_owned(),
            Token::From => "from".to_owned(),
            Token::As => "as".to_owned(),
            Token::In => "in".to_owned(),
            Token::Comma => ",".to_owned(),
            Token::Equal => "=".to_owned(),
            Token::Ident(name) => name.clone(),
            Token::Natural(n) => crate::text::usize_to_string(*n),
            Token::Boolean(b) => if *b {
                "true".to_owned()
            } else {
                "false".to_owned()
            },
        }
    }
}

impl Clone for Token {
    fn clone(&self) -> (r: Self)
        ensures
            r@ == self@,
    {
        match self {
            Token::Lambda => Token::Lambda,
            Token::Dot => Token::Dot,
            Token::LParen => Token::LParen,
            Token::RParen => Token::RParen,
            Token::Let => Token::Let,
            Token::Letrec => Token::Letrec,
            Token::Import => Token::Import,
            Token::From => Token::From,
            Token::As => Token::As,
            Token::In => Token::In,
            Token::Comma => Token::Comma,
            Token::Equal => Token::Equal,
            Token::Ident(name) => Token::Ident(name.clone()),
            Token::Natural(n) => Token::Natural(*n),
            Token::Boolean(b) => Token::Boolean(*b),
        }
    }
}

fn token_eq(a: &Token, b: &Token) -> (r: bool)
    ensures
        r == (a@ == b@),
{
    match (a, b) {
        (Token::Lambda, Token::Lambda) => true,
        (Token::Dot, Token::Dot) => true,
        (Token::LParen, Token::LParen) => true,
        (Token::RParen, Token::RParen) => true,
        (Token::Let, Token::Let) => true,
        (Token::Letrec, Token::Letrec) => true,
        (Token::Import, Token::Import) => true,
        (Token::From, Token::From) => true,
        (Token::As, Token::As) => true,
        (Token::In, Token::In) => true,
        (Token::Comma, Token::Comma) => true,
        (Token::Equal, Token::Equal) => true,
        (Token::Ident(x), Token::Ident(y)) => *x == *y,
        (Token::Natural(x), Token::Natural(y)) => *x == *y,
        (Token::Boolean(x), Token::Boolean(y)) => *x == *y,
        _ => false,
    }
}

impl PartialEq for Token {
    fn eq(&self, other: &Self) -> (r: bool) {
        token_eq(self, other)
    }
}

impl vstd::std_specs::cmp::PartialEqSpecImpl for Token {
    open spec fn obeys_eq_spec() -> bool {
        true
    }

    open spec fn eq_spec(&self, other: &Token) -> bool {
        self@ == other@
    }
}

/// The models of a token sequence.
pub open spec fn tokens_view(ts: Seq<Token>) -> Seq<TokenView> {
    ts.map_values(|t: Token| t@)
}

/// The Unicode white space characters.
pub open spec fn is_space(c: char) -> bool {
    ||| ('\u{9}' <= c && c <= '\u{d}')
    ||| c == ' '
    ||| c == '\u{85}'
    ||| c == '\u{a0}'
    ||| c == '\u{1680}'
    ||| ('\u{2000}' <= c && c <= '\u{200a}')
    ||| c == '\u{2028}'
    ||| c == '\u{2029}'
    ||| c == '\u{202f}'
    ||| c == '\u{205f}'
    ||| c == '\u{3000}'
}

pub open spec fn is_digit(c: char) -> bool {
    '0' <= c && c <= '9'
}

/// The first character of an identifier: an ASCII letter or `_`.
pub open spec fn is_ident_start(c: char) -> bool {
    ('a' <= c && c <= 'z') || ('A' <= c && c <= 'Z') || c == '_'
}

/// The later characters of an identifier: ASCII letters, digits and `_`.
pub open spec fn is_ident_continue(c: char) -> bool {
    is_ident_start(c) || is_digit(c)
}

/// The end of the run of characters from `i` on that satisfy `p`.
pub open spec fn run_end(s: Seq<char>, i: nat, p: spec_fn(char) -> bool) -> nat
    decreases s.len() - i,
{
    if i < s.len() && p(s[i as int]) {
        run_end(s, i + 1, p)
    } else {
        i
    }
}

pub proof fn lemma_run_end(s: Seq<char>, i: nat, p: spec_fn(char) -> bool)
    ensures
        i <= run_end(s, i, p),
        i <= s.len() ==> run_end(s, i, p) <= s.len(),
        forall|k: int| i <= k < run_end(s, i, p) ==> p(#[trigger] s[k]),
        run_end(s, i, p) < s.len() ==> !p(s[run_end(s, i, p) as int]),
    decreases s.len() - i,
{
    if i < s.len() && p(s[i as int]) {
        lemma_run_end(s, i + 1, p);
    }
}

/// The end of the comment text that starts at `i`: the next line break, or
/// the end of the input.
pub open spec fn line_end(s: Seq<char>, i: nat) -> nat {
    run_end(s, i, |c: char| c != '\n')
}

/// Where the next token starts: white space and `--` comments skipped.
pub open spec fn skip(s: Seq<char>, i: nat) -> nat
    decreases s.len() - i,
{
    if i < s.len() && is_space(s[i as int]) {
        skip(s, i + 1)
    } else if i + 1 < s.len() && s[i as int] == '-' && s[i + 1int] == '-' {
        proof {
            lemma_run_end(s, i + 2, |c: char| c != '\n');
        }
        skip(s, line_end(s, i + 2))
    } else {
        i
    }
}

/// The value of a run of decimal digits.
pub open spec fn digits_value(w: Seq<char>) -> nat
    decreases w.len(),
{
    if w.len() == 0 {
        0
    } else {
        digits_value(w.drop_last()) * 10 + (w.last() as nat - '0' as nat) as nat
    }
}

/// An identifier, unless it is one of the keywords.
pub open spec fn word_token(w: Seq<char>) -> TokenView {
    if w == seq!['l', 'e', 't'] {
        TokenView::Let
    } else if w == seq!['l', 'e', 't', 'r', 'e', 'c'] {
        TokenView::Letrec
    } else if w == seq!['i', 'm', 'p', 'o', 'r', 't'] {
        TokenView::Import
    } else if w == seq!['f', 'r', 'o', 'm'] {
        TokenView::From
    } else if w == seq!['a', 's'] {
        TokenView::As
    } else if w == seq!['i', 'n'] {
        TokenView::In
    } else if w == seq!['t', 'r', 'u', 'e'] {
        TokenView::Boolean(true)
    } else if w == seq!['f', 'a', 'l', 's', 'e'] {
        TokenView::Boolean(false)
    } else {
        TokenView::Ident(w)
    }
}

/// The token that starts at `i` and where it ends; `None` when no token
/// starts there.
pub open spec fn token_at(s: Seq<char>, i: nat) -> Option<(TokenView, nat)> {
    if i >= s.len() {
        None
    } else {
        let c = s[i as int];
        if c == '\\' {
            Some((TokenView::Lambda, i + 1))
        } else if c == '.' {
            Some((TokenView::Dot, i + 1))
        } else if c == '(' {
            Some((TokenView::LParen, i + 1))
        } else if c == ')' {
            Some((TokenView::RParen, i + 1))
        } else if c == ',' {
            Some((TokenView::Comma, i + 1))
        } else if c == '=' {
            Some((TokenView::Equal, i + 1))
        } else if is_ident_start(c) {
            let e = run_end(s, i + 1, |c: char| is_ident_continue(c));
            Some((word_token(s.subrange(i as int, e as int)), e))
        } else if is_digit(c) {
            let e = run_end(s, i, |c: char| is_digit(c));
            let v = digits_value(s.subrange(i as int, e as int));
            if v <= usize::MAX {
                Some((TokenView::Natural(v), e))
            } else {
                None
            }
        } else {
            None
        }
    }
}

pub proof fn lemma_token_at(s: Seq<char>, i: nat)
    ensures
        token_at(s, i) matches Some((_, e)) ==> i < e <= s.len(),
{
    if i < s.len() {
        lemma_run_end(s, i + 1, |c: char| is_ident_continue(c));
        lemma_run_end(s, i, |c: char| is_digit(c));
    }
}

/// The tokens of `s` from `i` on, or the position of the first character
/// where no token starts.
pub open spec fn lex_from(s: Seq<char>, i: nat) -> Result<Seq<TokenView>, nat>
    decreases s.len() - i,
{
    let j = skip(s, i);
    if j >= s.len() {
        Ok(seq![])
    } else {
        match token_at(s, j) {
            Some((t, e)) => if i < e <= s.len() {
                match lex_from(s, e) {
                    Ok(rest) => Ok(seq![t] + rest),
                    Err(p) => Err(p),
                }
            } else {
                Err(j)
            },
            None => Err(j),
        }
    }
}

/// The tokens of a source text: at least one token, white space and
/// comments between them; otherwise the position where lexing failed.
pub open spec fn tokenize_spec(s: Seq<char>) -> Result<Seq<TokenView>, nat> {
    match lex_from(s, 0) {
        Ok(ts) => if ts.len() == 0 {
            Err(s.len())
        } else {
            Ok(ts)
        },
        Err(p) => Err(p),
    }
}

/// The position in the source text where lexing failed.
#[derive(Debug)]
pub struct LexerError {
    pub position: usize,
}

impl LexerError {
    /// The error message.
    pub fn to_display_string(&self) -> (s: String)
        ensures
            s@ == "Lexer error at "@ + decimal(self.position as nat),
    {
        let mut s = "Lexer error at ".to_owned();
        let n = crate::text::usize_to_string(self.position);
        push_str(&mut s, n.as_str());
        s
    }
}

fn is_space_exec(c: char) -> (r: bool)
    ensures
        r == is_space(c),
{
    ('\u{9}' <= c && c <= '\u{d}') || c == ' ' || c == '\u{85}' || c == '\u{a0}' || c == '\u{1680}'
        || ('\u{2000}' <= c && c <= '\u{200a}') || c == '\u{2028}' || c == '\u{2029}' || c
        == '\u{202f}' || c == '\u{205f}' || c == '\u{3000}'
}

fn is_digit_exec(c: char) -> (r: bool)
    ensures
        r == is_digit(c),
{
    '0' <= c && c <= '9'
}

fn is_ident_start_exec(c: char) -> (r: bool)
    ensures
        r == is_ident_start(c),
{
    ('a' <= c && c <= 'z') || ('A' <= c && c <= 'Z') || c == '_'
}

fn is_ident_continue_exec(c: char) -> (r: bool)
    ensures
        r == is_ident_continue(c),
{
    is_ident_start_exec(c) || is_digit_exec(c)
}

/// Skips white space and comments from `i` on.
fn skip_exec(s: &Vec<char>, i: usize) -> (r: usize)
    requires
        i <= s@.len(),
    ensures
        r == skip(s@, i as nat),
        i <= r <= s@.len(),
    decreases s@.len() - i,
{
    if i < s.len() && is_space_exec(s[i]) {
        skip_exec(s, i + 1)
    } else if i < s.len() && s.len() - i > 1 && s[i] == '-' && s[i + 1] == '-' {
        let mut k = i + 2;
        while k < s.len() && s[k] != '\n'
            invariant
                i + 2 <= k <= s@.len(),
                run_end(s@, (i + 2) as nat, |c: char| c != '\n') == run_end(s@, k as nat, |c: char| c != '\n'),
            decreases s@.len() - k,
        {
            k = k + 1;
        }
        skip_exec(s, k)
    } else {
        i
    }
}

/// The characters `s[i..j]` as a `String`.
fn string_between(s: &Vec<char>, i: usize, j: usize) -> (r: String)
    requires
        i <= j <= s@.len(),
    ensures
        r@ == s@.subrange(i as int, j as int),
{
    let mut r = String::new();
    let mut k = i;
    while k < j
        invariant
            i <= k <= j <= s@.len(),
            r@ == s@.subrange(i as int, k as int),
        decreases j - k,
    {
        push_char(&mut r, s[k]);
        k = k + 1;
        proof {
            assert(s@.subrange(i as int, k as int) =~= s@.subrange(i as int, k - 1).push(s@[k - 1]));
        }
    }
    r
}

fn word_token_exec(w: String) -> (t: Token)
    ensures
        t@ == word_token(w@),
{
    let cs = chars_of(w.as_str());
    if cs.len() == 3 && cs[0] == 'l' && cs[1] == 'e' && cs[2] == 't' {
        assert(w@ =~= seq!['l', 'e', 't']);
        Token::Let
    } else if cs.len() == 6 && cs[0] == 'l' && cs[1] == 'e' && cs[2] == 't' && cs[3] == 'r' && cs[4]
        == 'e' && cs[5] == 'c' {
        assert(w@ =~= seq!['l', 'e', 't', 'r', 'e', 'c']);
        Token::Letrec
    } else if cs.len() == 6 && cs[0] == 'i' && cs[1] == 'm' && cs[2] == 'p' && cs[3] == 'o' && cs[4]
        == 'r' && cs[5] == 't' {
        assert(w@ =~= seq!['i', 'm', 'p', 'o', 'r', 't']);
        Token::Import
    } else if cs.len() == 4 && cs[0] == 'f' && cs[1] == 'r' && cs[2] == 'o' && cs[3] == 'm' {
        assert(w@ =~= seq!['f', 'r', 'o', 'm']);
        Token::From
    } else if cs.len() == 2 && cs[0] == 'a' && cs[1] == 's' {
        assert(w@ =~= seq!['a', 's']);
        Token::As
    } else if cs.len() == 2 && cs[0] == 'i' && cs[1] == 'n' {
        assert(w@ =~= seq!['i', 'n']);
        Token::In
    } else if cs.len() == 4 && cs[0] == 't' && cs[1] == 'r' && cs[2] == 'u' && cs[3] == 'e' {
        assert(w@ =~= seq!['t', 'r', 'u', 'e']);
        Token::Boolean(true)
    } else if cs.len() == 5 && cs[0] == 'f' && cs[1] == 'a' && cs[2] == 'l' && cs[3] == 's' && cs[4]
        == 'e' {
        assert(w@ =~= seq!['f', 'a', 'l', 's', 'e']);
        Token::Boolean(false)
    } else {
        Token::Ident(w)
    }
}

/// The token that starts at `i`, and where it ends.
fn token_at_exec(s: &Vec<char>, i: usize) -> (r: Option<(Token, usize)>)
    requires
        i < s@.len(),
    ensures
        match token_at(s@, i as nat) {
            Some((t, e)) => r matches Some((t2, e2)) && t2@ == t && e2 == e,
            None => r is None,
        },
{
    let n = s.len();
    let c = s[i];
    if c == '\\' {
        Some((Token::Lambda, i + 1))
    } else if c == '.' {
        Some((Token::Dot, i + 1))
    } else if c == '(' {
        Some((Token::LParen, i + 1))
    } else if c == ')' {
        Some((Token::RParen, i + 1))
    } else if c == ',' {
        Some((Token::Comma, i + 1))
    } else if c == '=' {
        Some((Token::Equal, i + 1))
    } else if is_ident_start_exec(c) {
        let mut e = i + 1;
        while e < s.len() && is_ident_continue_exec(s[e])
            invariant
                i + 1 <= e <= s@.len(),
                run_end(s@, (i + 1) as nat, |c: char| is_ident_continue(c)) == run_end(
                    s@,
                    e as nat,
                    |c: char| is_ident_continue(c),
                ),
            decreases s@.len() - e,
        {
            e = e + 1;
        }
        let w = string_between(s, i, e);
        Some((word_token_exec(w), e))
    } else if is_digit_exec(c) {
        let mut e = i;
        let mut v: usize = 0;
        let mut overflow = false;
        while e < s.len() && is_digit_exec(s[e])
            invariant
                i <= e <= s@.len(),
                run_end(s@, i as nat, |c: char| is_digit(c)) == run_end(s@, e as nat, |c: char| is_digit(c)),
                !overflow ==> v == digits_value(s@.subrange(i as int, e as int)),
                overflow ==> digits_value(s@.subrange(i as int, e as int)) > usize::MAX,
            decreases s@.len() - e,
        {
            let d = (s[e] as u32 - '0' as u32) as usize;
            proof {
                let w = s@.subrange(i as int, e + 1);
                assert(w.drop_last() =~= s@.subrange(i as int, e as int));
                assert(w.last() == s@[e as int]);
            }
            if !overflow {
                if v > (usize::MAX - d) / 10 {
                    overflow = true;
                    assert(v * 10 + d > usize::MAX) by (nonlinear_arith)
                        requires
                            v > (usize::MAX - d) / 10,
                            d <= 9,
                    ;
                } else {
                    assert(v * 10 + d <= usize::MAX) by (nonlinear_arith)
                        requires
                            v <= (usize::MAX - d) / 10,
                            d <= 9,
                    ;
                    v = v * 10 + d;
                }
            } else {
                proof {
                    let w = s@.subrange(i as int, e as int);
                    assert(digits_value(w) * 10 >= digits_value(w)) by (nonlinear_arith);
                }
            }
            e = e + 1;
        }
        if overflow {
            None
        } else {
            Some((Token::Natural(v), e))
        }
    } else {
        None
    }
}

pub fn tokenize(src: &str) -> (r: Result<Vec<Token>, LexerError>)
    ensures
        match tokenize_spec(src@) {
            Ok(ts) => r matches Ok(v) && tokens_view(v@) == ts,
            Err(p) => r matches Err(e) && e.position == p,
        },
{
    let s = chars_of(src);
    let mut tokens: Vec<Token> = Vec::new();
    let mut i: usize = 0;
    loop
        invariant
            i <= s@.len(),
            s@ == src@,
            lex_from(s@, 0) == (match lex_from(s@, i as nat) {
                Ok(rest) => Ok(tokens_view(tokens@) + rest),
                Err(p) => Err(p),
            }),
        ensures
            s@ == src@,
            lex_from(s@, 0) == Ok::<Seq<TokenView>, nat>(tokens_view(tokens@)),
        decreases s@.len() - i,
    {
        let j = skip_exec(&s, i);
        if j >= s.len() {
            proof {
                assert(tokens_view(tokens@) + seq![] =~= tokens_view(tokens@));
            }
            break;
        }
        proof {
            lemma_token_at(s@, j as nat);
        }
        match token_at_exec(&s, j) {
            Some((t, e)) => {
                proof {
                    assert(tokens_view(tokens@.push(t)) =~= tokens_view(tokens@).push(t@));
                    assert(forall|rest: Seq<TokenView>| tokens_view(tokens@) + (seq![t@] + rest) =~= tokens_view(tokens@).push(t@) + rest);
                }
                tokens.push(t);
                i = e;
            },
            None => {
                return Err(LexerError { position: j });
            },
        }
    }
    assert(lex_from(s@, 0) == Ok::<Seq<TokenView>, nat>(tokens_view(tokens@)));
    if tokens.len() == 0 {
        return Err(LexerError { position: s.len() });
    }
    Ok(tokens)
}

} // verus!
