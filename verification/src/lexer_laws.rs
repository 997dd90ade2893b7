//! White space and comments between tokens do not matter.
use crate::lexer::{
    is_digit, is_ident_continue, is_ident_start, is_space, lemma_run_end, lemma_token_at, lex_from,
    line_end, run_end, skip, token_at, tokenize_spec, TokenView,
};
use vstd::prelude::*;

verus! {

/// Where position `p` of a text lands once a character is inserted after
/// position `i`.
pub open spec fn moved(p: nat, i: nat) -> nat {
    if p <= i {
        p
    } else {
        p + 1
    }
}

/// `t` is `s` with the white space character at `i` doubled.
spec fn doubled_at(s: Seq<char>, t: Seq<char>, i: nat) -> bool {
    &&& i < s.len()
    &&& is_space(s[i as int])
    &&& t.len() == s.len() + 1
    &&& forall|k: int| 0 <= k <= i ==> #[trigger] t[k] == s[k]
    &&& forall|k: int| i <= k < s.len() ==> t[k + 1] == #[trigger] s[k]
}

proof fn lemma_doubled_run_end(s: Seq<char>, t: Seq<char>, i: nat, j: nat, p: spec_fn(char) -> bool)
    requires
        doubled_at(s, t, i),
        j <= s.len(),
    ensures
        run_end(t, moved(j, i), p) == moved(run_end(s, j, p), i),
    decreases s.len() - j,
{
    if j < s.len() && p(s[j as int]) {
        lemma_doubled_run_end(s, t, i, j + 1, p);
        if j == i {
            assert(t[i + 1int] == s[i as int]);
            assert(t[i as int] == s[i as int]);
            assert(run_end(t, i + 1, p) == run_end(t, i + 2, p));
        } else if j < i {
            assert(t[j as int] == s[j as int]);
        } else {
            assert(t[j + 1int] == s[j as int]);
        }
    } else if j < s.len() {
        if j <= i {
            assert(t[j as int] == s[j as int]);
        } else {
            assert(t[j + 1int] == s[j as int]);
        }
    }
}

proof fn lemma_doubled_skip(s: Seq<char>, t: Seq<char>, i: nat, j: nat)
    requires
        doubled_at(s, t, i),
        j <= s.len(),
    ensures
        skip(t, moved(j, i)) == moved(skip(s, j), i),
    decreases s.len() - j,
{
    if j < s.len() && is_space(s[j as int]) {
        lemma_doubled_skip(s, t, i, j + 1);
        if j == i {
            assert(t[i + 1int] == s[i as int]);
            assert(t[i as int] == s[i as int]);
            assert(skip(t, i + 1) == skip(t, i + 2));
        } else if j < i {
            assert(t[j as int] == s[j as int]);
        } else {
            assert(t[j + 1int] == s[j as int]);
        }
    } else if j + 1 < s.len() && s[j as int] == '-' && s[j + 1int] == '-' {
        lemma_run_end(s, j + 2, |c: char| c != '\n');
        lemma_doubled_run_end(s, t, i, j + 2, |c: char| c != '\n');
        lemma_doubled_skip(s, t, i, line_end(s, j + 2));
        if j < i {
            assert(j + 1 != i);
            assert(t[j as int] == s[j as int]);
            assert(t[j + 1int] == s[j + 1int]);
        } else {
            assert(t[j + 1int] == s[j as int]);
            assert(t[j + 2int] == s[j + 1int]);
        }
    } else if j < s.len() {
        if j <= i {
            assert(t[j as int] == s[j as int]);
        } else {
            assert(t[j + 1int] == s[j as int]);
        }
        if j + 1 < s.len() {
            if j < i {
                assert(t[j + 1int] == s[j + 1int]);
            } else if j > i {
                assert(t[j + 2int] == s[j + 1int]);
            }
        }
    }
}

proof fn lemma_doubled_token_at(s: Seq<char>, t: Seq<char>, i: nat, j: nat)
    requires
        doubled_at(s, t, i),
        j < s.len(),
        !is_space(s[j as int]),
    ensures
        token_at(t, moved(j, i)) == (match token_at(s, j) {
            Some((tok, e)) => Some((tok, moved(e, i))),
            None => None,
        }),
{
    let tj = moved(j, i);
    if j < i {
        assert(t[j as int] == s[j as int]);
    } else {
        assert(t[j + 1int] == s[j as int]);
    }
    let c = s[j as int];
    if is_ident_start(c) {
        let p = |c: char| is_ident_continue(c);
        lemma_run_end(s, j + 1, p);
        lemma_doubled_run_end(s, t, i, j + 1, p);
        let e = run_end(s, j + 1, p);
        if j < i {
            assert(!p(s[i as int]));
            assert(e <= i);
            assert(t.subrange(tj as int, moved(e, i) as int) =~= s.subrange(j as int, e as int));
        } else {
            assert(t.subrange(tj as int, moved(e, i) as int) =~= s.subrange(j as int, e as int));
        }
    } else if is_digit(c) {
        let p = |c: char| is_digit(c);
        lemma_run_end(s, j, p);
        lemma_doubled_run_end(s, t, i, j, p);
        let e = run_end(s, j, p);
        if j < i {
            assert(!p(s[i as int]));
            assert(e <= i);
            assert(t.subrange(tj as int, moved(e, i) as int) =~= s.subrange(j as int, e as int));
        } else {
            assert(t.subrange(tj as int, moved(e, i) as int) =~= s.subrange(j as int, e as int));
        }
    }
}

proof fn lemma_doubled_lex_from(s: Seq<char>, t: Seq<char>, i: nat, j: nat)
    requires
        doubled_at(s, t, i),
        j <= s.len(),
    ensures
        lex_from(t, moved(j, i)) == (match lex_from(s, j) {
            Ok(ts) => Ok(ts),
            Err(p) => Err::<Seq<TokenView>, nat>(moved(p, i)),
        }),
    decreases s.len() - j,
{
    lemma_doubled_skip(s, t, i, j);
    let k = skip(s, j);
    lemma_skip_bounds(s, j);
    if k < s.len() {
        lemma_doubled_token_at(s, t, i, k);
        lemma_token_at(s, k);
        if let Some((tok, e)) = token_at(s, k) {
            if j < e <= s.len() {
                lemma_doubled_lex_from(s, t, i, e);
            }
        }
    }
}

proof fn lemma_skip_bounds(s: Seq<char>, j: nat)
    requires
        j <= s.len(),
    ensures
        j <= skip(s, j) <= s.len(),
        skip(s, j) < s.len() ==> !is_space(s[skip(s, j) as int]),
    decreases s.len() - j,
{
    if j < s.len() && is_space(s[j as int]) {
        lemma_skip_bounds(s, j + 1);
    } else if j + 1 < s.len() && s[j as int] == '-' && s[j + 1int] == '-' {
        lemma_run_end(s, j + 2, |c: char| c != '\n');
        lemma_skip_bounds(s, line_end(s, j + 2));
    }
}

/// Indentation and line breaks are ignored: doubling a white space
/// character of a program gives the same tokens, and a lexing error at the
/// same place in the text.
pub proof fn law_white_space_is_ignored(s: Seq<char>, i: nat)
    requires
        i < s.len(),
        is_space(s[i as int]),
    ensures
        tokenize_spec(s.insert(i as int, s[i as int])) == (match tokenize_spec(s) {
            Ok(ts) => Ok(ts),
            Err(p) => Err::<Seq<TokenView>, nat>(moved(p, i)),
        }),
{
    let t = s.insert(i as int, s[i as int]);
    s.insert_ensures(i as int, s[i as int]);
    assert(doubled_at(s, t, i));
    lemma_doubled_lex_from(s, t, i, 0);
}

/// `s` with `n` more copies of the character at `i` inserted there.
pub open spec fn widened(s: Seq<char>, i: nat, n: nat) -> Seq<char>
    decreases n,
{
    if n == 0 {
        s
    } else {
        let w = widened(s, i, (n - 1) as nat);
        w.insert(i as int, w[i as int])
    }
}

proof fn lemma_widened(s: Seq<char>, i: nat, n: nat)
    requires
        i < s.len(),
    ensures
        widened(s, i, n).len() == s.len() + n,
        widened(s, i, n)[i as int] == s[i as int],
    decreases n,
{
    if n > 0 {
        lemma_widened(s, i, (n - 1) as nat);
        let w = widened(s, i, (n - 1) as nat);
        w.insert_ensures(i as int, w[i as int]);
    }
}

/// A run of white space may be as long as one likes: repeating a white
/// space character of a program any number of times gives the same tokens,
/// and a lexing error at the same place in the text.
pub proof fn law_white_space_runs_are_ignored(s: Seq<char>, i: nat, n: nat)
    requires
        i < s.len(),
        is_space(s[i as int]),
    ensures
        tokenize_spec(widened(s, i, n)) == (match tokenize_spec(s) {
            Ok(ts) => Ok(ts),
            Err(p) => Err::<Seq<TokenView>, nat>(
                if p <= i {
                    p
                } else {
                    p + n
                },
            ),
        }),
    decreases n,
{
    if n > 0 {
        law_white_space_runs_are_ignored(s, i, (n - 1) as nat);
        lemma_widened(s, i, (n - 1) as nat);
        let w = widened(s, i, (n - 1) as nat);
        law_white_space_is_ignored(w, i);
    }
}

/// `s` followed by a space and a comment whose text is `c`.
pub open spec fn with_comment(s: Seq<char>, c: Seq<char>) -> Seq<char> {
    s + seq![' ', '-', '-'] + c
}

proof fn lemma_with_comment_index(s: Seq<char>, c: Seq<char>)
    ensures
        with_comment(s, c).len() == s.len() + 3 + c.len(),
        forall|k: int| 0 <= k < s.len() ==> #[trigger] with_comment(s, c)[k] == s[k],
        with_comment(s, c)[s.len() as int] == ' ',
        with_comment(s, c)[s.len() + 1int] == '-',
        with_comment(s, c)[s.len() + 2int] == '-',
        forall|k: int| 0 <= k < c.len() ==> with_comment(s, c)[s.len() + 3 + k] == #[trigger] c[k],
{
}

/// A run of characters that a space ends is not changed by what follows the
/// text.
proof fn lemma_comment_run_end(s: Seq<char>, c: Seq<char>, j: nat, p: spec_fn(char) -> bool)
    requires
        j <= s.len(),
        !p(' '),
    ensures
        run_end(with_comment(s, c), j, p) == run_end(s, j, p),
    decreases s.len() - j,
{
    lemma_with_comment_index(s, c);
    if j < s.len() && p(s[j as int]) {
        lemma_comment_run_end(s, c, j + 1, p);
    }
}

/// The rest of a line in the comment text runs to the end.
proof fn lemma_comment_tail(s: Seq<char>, c: Seq<char>, k: nat)
    requires
        s.len() <= k <= with_comment(s, c).len(),
        forall|m: int| 0 <= m < c.len() ==> c[m] != '\n',
    ensures
        line_end(with_comment(s, c), k) == with_comment(s, c).len(),
    decreases with_comment(s, c).len() - k,
{
    lemma_with_comment_index(s, c);
    let t = with_comment(s, c);
    if k < t.len() {
        if k >= s.len() + 3 {
            assert(t[k as int] == c[k - s.len() - 3]);
        }
        lemma_comment_tail(s, c, k + 1);
    }
}

/// A comment at the end of `s` reaches into the added comment.
proof fn lemma_comment_line_end(s: Seq<char>, c: Seq<char>, j: nat)
    requires
        j <= s.len(),
        forall|m: int| 0 <= m < c.len() ==> c[m] != '\n',
    ensures
        line_end(with_comment(s, c), j) == if line_end(s, j) < s.len() {
            line_end(s, j)
        } else {
            with_comment(s, c).len()
        },
    decreases s.len() - j,
{
    lemma_with_comment_index(s, c);
    if j < s.len() {
        if s[j as int] != '\n' {
            lemma_comment_line_end(s, c, j + 1);
        }
    } else {
        lemma_comment_tail(s, c, j);
    }
}

proof fn lemma_comment_skip(s: Seq<char>, c: Seq<char>, j: nat)
    requires
        j <= s.len(),
        forall|m: int| 0 <= m < c.len() ==> c[m] != '\n',
    ensures
        skip(with_comment(s, c), j) == if skip(s, j) < s.len() {
            skip(s, j)
        } else {
            with_comment(s, c).len()
        },
    decreases s.len() - j,
{
    lemma_with_comment_index(s, c);
    let t = with_comment(s, c);
    if j < s.len() && is_space(s[j as int]) {
        lemma_comment_skip(s, c, j + 1);
    } else if j + 1 < s.len() && s[j as int] == '-' && s[j + 1int] == '-' {
        lemma_run_end(s, j + 2, |c: char| c != '\n');
        lemma_comment_line_end(s, c, j + 2);
        let e = line_end(s, j + 2);
        if e < s.len() {
            lemma_comment_skip(s, c, e);
        } else {
            lemma_comment_tail(s, c, t.len());
            assert(skip(t, t.len()) == t.len());
            assert(skip(s, s.len()) == s.len());
        }
    } else if j == s.len() {
        assert(is_space(t[j as int]));
        assert(t[j + 1int] == '-' && t[j + 2int] == '-');
        lemma_comment_tail(s, c, j + 3);
        assert(skip(t, j + 1) == skip(t, line_end(t, j + 3)));
        assert(skip(t, t.len()) == t.len());
    }
}

proof fn lemma_comment_token_at(s: Seq<char>, c: Seq<char>, j: nat)
    requires
        j < s.len(),
    ensures
        token_at(with_comment(s, c), j) == token_at(s, j),
{
    lemma_with_comment_index(s, c);
    let t = with_comment(s, c);
    let ch = s[j as int];
    if is_ident_start(ch) {
        let p = |c: char| is_ident_continue(c);
        lemma_comment_run_end(s, c, j + 1, p);
        lemma_run_end(s, j + 1, p);
        let e = run_end(s, j + 1, p);
        assert(t.subrange(j as int, e as int) =~= s.subrange(j as int, e as int));
    } else if is_digit(ch) {
        let p = |c: char| is_digit(c);
        lemma_comment_run_end(s, c, j, p);
        lemma_run_end(s, j, p);
        let e = run_end(s, j, p);
        assert(t.subrange(j as int, e as int) =~= s.subrange(j as int, e as int));
    }
}

proof fn lemma_comment_lex_from(s: Seq<char>, c: Seq<char>, j: nat)
    requires
        j <= s.len(),
        forall|m: int| 0 <= m < c.len() ==> c[m] != '\n',
    ensures
        lex_from(with_comment(s, c), j) == lex_from(s, j),
        lex_from(s, j) matches Err(p) ==> p < s.len(),
    decreases s.len() - j,
{
    lemma_comment_skip(s, c, j);
    lemma_skip_bounds(s, j);
    let k = skip(s, j);
    if k < s.len() {
        lemma_comment_token_at(s, c, k);
        lemma_token_at(s, k);
        if let Some((tok, e)) = token_at(s, k) {
            if j < e <= s.len() {
                lemma_comment_lex_from(s, c, e);
            }
        }
    }
}

/// Anything after `--` until the end of the line is ignored: a comment
/// after a program changes neither its tokens nor where it fails to lex,
/// but for a program with no token, whose failure is at the end of the text.
pub proof fn law_comment_is_ignored(s: Seq<char>, c: Seq<char>)
    requires
        forall|m: int| 0 <= m < c.len() ==> c[m] != '\n',
    ensures
        tokenize_spec(with_comment(s, c)) == (match tokenize_spec(s) {
            Ok(ts) => Ok(ts),
            Err(p) => Err::<Seq<TokenView>, nat>(
                if p < s.len() {
                    p
                } else {
                    with_comment(s, c).len()
                },
            ),
        }),
{
    lemma_comment_lex_from(s, c, 0);
    lemma_with_comment_index(s, c);
}

} // verus!
