//! Laws of the scanner: a source is scanned one way only, and each token is
//! the part of the source its span covers.
use vstd::prelude::*;
use vstd::utf8::encode_utf8;
use super::error::LexError;
use super::token::{Token, TokenKind};
use super::scan::{
    step_ok, token_at, tokens_ok, lexed, last_end, skip_from, lemma_skip_bounds, escapes_ok, is_digit, is_digits,
    is_number_lexeme, lemma_number_starts_with_digit, is_ident_lexeme, single_punct, double_punct, punct_kind,
    error_at, string_stops, bad_escape_at, is_escape_char, starts_token, byte_off, line_col, keyword_kind,
};

verus! {

/// Two token kinds are the same variant with the same text.
pub open spec fn same_kind(a: TokenKind, b: TokenKind) -> bool {
    match (a, b) {
        (TokenKind::Number(x), TokenKind::Number(y)) => x@ == y@,
        (TokenKind::StringLit(x), TokenKind::StringLit(y)) => x@ == y@,
        (TokenKind::Ident(x), TokenKind::Ident(y)) => x@ == y@,
        _ => a.spec_tag() == b.spec_tag(),
    }
}

/// Two tokens cover the same text at the same place and read it the same way.
pub open spec fn same_token(a: Token, b: Token) -> bool {
    &&& a.span == b.span
    &&& a.lexeme@ == b.lexeme@
    &&& same_kind(a.kind, b.kind)
}

/// The first index at or after `j` that does not hold a digit.
pub open spec fn digit_run(s: Seq<char>, j: int) -> int
    decreases s.len() - j,
{
    if !(0 <= j < s.len()) || !is_digit(s[j]) {
        j
    } else {
        digit_run(s, j + 1)
    }
}

/// Where a number that begins at `a` ends: its digits, and a `.` with the
/// digits after it when a digit follows the `.`.
pub open spec fn number_end(s: Seq<char>, a: int) -> int {
    let d = digit_run(s, a);
    if d + 1 < s.len() && s[d] == '.' && is_digit(s[d + 1]) {
        digit_run(s, d + 1)
    } else {
        d
    }
}

proof fn lemma_digit_run(s: Seq<char>, j: int, e: int)
    requires
        0 <= j <= e <= s.len(),
        forall|x: int| j <= x < e ==> is_digit(#[trigger] s[x]),
        e < s.len() ==> !is_digit(s[e]),
    ensures
        digit_run(s, j) == e,
    decreases e - j,
{
    if j < e {
        lemma_digit_run(s, j + 1, e);
    }
}

proof fn lemma_number_end(s: Seq<char>, a: int, i: int, tok: Token)
    requires
        0 <= a < i <= s.len(),
        token_at(s, tok, a, i),
        tok.kind is Number,
        i < s.len() ==> !is_digit(s[i]),
        is_digits(tok.lexeme@) && i < s.len() ==> !(s[i] == '.' && i + 1 < s.len() && is_digit(s[i + 1])),
    ensures
        i == number_end(s, a),
{
    let lex = tok.lexeme@;
    assert(lex == s.subrange(a, i));
    assert(is_number_lexeme(lex));
    if is_digits(lex) {
        assert forall|x: int| a <= x < i implies is_digit(#[trigger] s[x]) by {
            assert(lex[x - a] == s[x]);
        }
        lemma_digit_run(s, a, i);
    } else {
        let k = choose|k: int|
            0 < k < lex.len() - 1 && #[trigger] lex[k] == '.' && is_digits(lex.take(k)) && is_digits(lex.skip(k + 1));
        assert forall|x: int| a <= x < a + k implies is_digit(#[trigger] s[x]) by {
            assert(lex.take(k)[x - a] == s[x]);
        }
        assert(s[a + k] == lex[k]);
        lemma_digit_run(s, a, a + k);
        assert forall|x: int| a + k + 1 <= x < i implies is_digit(#[trigger] s[x]) by {
            assert(lex.skip(k + 1)[x - (a + k + 1)] == s[x]);
        }
        assert(is_digit(lex.skip(k + 1)[0]));
        assert(s[a + k + 1] == lex.skip(k + 1)[0]);
        lemma_digit_run(s, a + k + 1, i);
    }
}

/// The body of a string literal ends at its first quote that no backslash
/// escapes.
proof fn lemma_string_end(s: Seq<char>, p: int, e1: int, e2: int)
    requires
        0 <= p <= e1 < s.len(),
        p <= e2 < s.len(),
        escapes_ok(s.subrange(p, e1)),
        escapes_ok(s.subrange(p, e2)),
        s[e1] == '"',
        s[e2] == '"',
    ensures
        e1 == e2,
    decreases e1 - p,
{
    let b1 = s.subrange(p, e1);
    let b2 = s.subrange(p, e2);
    if p == e1 {
        if e2 > p {
            assert(b2[0] == '"');
        }
    } else if p == e2 {
        assert(b1[0] == '"');
    } else {
        assert(b1[0] == s[p]);
        assert(b2[0] == s[p]);
        if s[p] == '\\' {
            assert(b1.skip(2) =~= s.subrange(p + 2, e1));
            assert(b2.skip(2) =~= s.subrange(p + 2, e2));
            lemma_string_end(s, p + 2, e1, e2);
        } else {
            assert(b1.skip(1) =~= s.subrange(p + 1, e1));
            assert(b2.skip(1) =~= s.subrange(p + 1, e2));
            lemma_string_end(s, p + 1, e1, e2);
        }
    }
}

/// One scanning step from a given index reads one token only.
pub proof fn law_step_determined(s: Seq<char>, i: int, i1: int, i2: int, t1: Token, t2: Token)
    requires
        0 <= i <= s.len(),
        step_ok(s, i, i1, Ok::<Token, LexError>(t1)),
        step_ok(s, i, i2, Ok::<Token, LexError>(t2)),
    ensures
        i1 == i2,
        same_token(t1, t2),
{
    lemma_skip_bounds(s, i);
    let a = skip_from(s, i);
    let l1 = t1.lexeme@;
    let l2 = t2.lexeme@;
    if a < s.len() {
        let c = s[a];
        assert(l1[0] == c);
        assert(l2[0] == c);
        if t1.kind is Number {
            lemma_number_starts_with_digit(l1);
        }
        if t2.kind is Number {
            lemma_number_starts_with_digit(l2);
        }
        if c == '"' {
            assert(t1.kind is StringLit);
            assert(t2.kind is StringLit);
            assert(l1.subrange(1, l1.len() - 1) =~= s.subrange(a + 1, i1 - 1));
            assert(l2.subrange(1, l2.len() - 1) =~= s.subrange(a + 1, i2 - 1));
            assert(s[i1 - 1] == l1[l1.len() - 1]);
            assert(s[i2 - 1] == l2[l2.len() - 1]);
            lemma_string_end(s, a + 1, i1 - 1, i2 - 1);
        } else if is_digit(c) {
            assert(t1.kind is Number);
            assert(t2.kind is Number);
            lemma_number_end(s, a, i1, t1);
            lemma_number_end(s, a, i2, t2);
        } else if single_punct(c) is Some {
            assert(punct_kind(l1) == Some(t1.kind));
            assert(punct_kind(l2) == Some(t2.kind));
            if a + 1 < s.len() && double_punct(c, s[a + 1]) is Some {
                if l1.len() == 1 || l2.len() == 1 {
                    assert(false);
                }
                assert(l1[1] == s[a + 1]);
                assert(l2[1] == s[a + 1]);
            } else {
                if l1.len() == 2 {
                    assert(l1[1] == s[a + 1]);
                }
                if l2.len() == 2 {
                    assert(l2[1] == s[a + 1]);
                }
            }
        } else {
            assert(is_ident_lexeme(l1));
            assert(is_ident_lexeme(l2));
            if i1 < i2 {
                assert(l2[i1 - a] == s[i1]);
            } else if i2 < i1 {
                assert(l1[i2 - a] == s[i2]);
            }
        }
    }
    assert(l1 == l2);
}

proof fn lemma_prefix_determined(s: Seq<char>, t1: Seq<Token>, e1: Seq<int>, t2: Seq<Token>, e2: Seq<int>, k: int)
    requires
        lexed(s, t1, e1),
        lexed(s, t2, e2),
        0 <= k <= t1.len(),
        k <= t2.len(),
    ensures
        e1.take(k) == e2.take(k),
        forall|j: int| 0 <= j < k ==> same_token(#[trigger] t1[j], t2[j]),
    decreases k,
{
    if k > 0 {
        lemma_prefix_determined(s, t1, e1, t2, e2, k - 1);
        let i = last_end(e1.take(k - 1));
        assert(step_ok(s, last_end(e1.take(k - 1)), e1[k - 1], Ok::<Token, LexError>(t1[k - 1])));
        assert(step_ok(s, last_end(e2.take(k - 1)), e2[k - 1], Ok::<Token, LexError>(t2[k - 1])));
        if k - 1 > 0 {
            assert(step_ok(s, last_end(e1.take(k - 2)), e1[k - 2], Ok::<Token, LexError>(t1[k - 2])));
            assert(e1.take(k - 1).last() == e1[k - 2]);
        }
        law_step_determined(s, i, e1[k - 1], e2[k - 1], t1[k - 1], t2[k - 1]);
        assert(e1.take(k) =~= e1.take(k - 1).push(e1[k - 1]));
        assert(e2.take(k) =~= e2.take(k - 1).push(e2[k - 1]));
    }
}

/// Two chains of steps from the start of a source that each read the end of
/// input last, and only last, read the same tokens.
proof fn lemma_eof_chains_agree(s: Seq<char>, t1: Seq<Token>, e1: Seq<int>, t2: Seq<Token>, e2: Seq<int>)
    requires
        lexed(s, t1, e1),
        lexed(s, t2, e2),
        t1.len() >= 1,
        t2.len() >= 1,
        t1[t1.len() - 1].kind is Eof,
        t2[t2.len() - 1].kind is Eof,
        forall|k: int| 0 <= k < t1.len() - 1 ==> !(#[trigger] t1[k].kind is Eof),
        forall|k: int| 0 <= k < t2.len() - 1 ==> !(#[trigger] t2[k].kind is Eof),
    ensures
        t1.len() == t2.len(),
        forall|j: int| 0 <= j < t1.len() ==> same_token(#[trigger] t1[j], t2[j]),
{
    if t1.len() <= t2.len() {
        lemma_prefix_determined(s, t1, e1, t2, e2, t1.len() as int);
        let j = t1.len() - 1;
        assert(same_token(t1[j], t2[j]));
        assert(t1[j].kind is Eof);
        if t1.len() < t2.len() {
            assert(!(t2[j].kind is Eof));
        }
    } else {
        lemma_prefix_determined(s, t1, e1, t2, e2, t2.len() as int);
        let j = t2.len() - 1;
        assert(same_token(t1[j], t2[j]));
        assert(t2[j].kind is Eof);
        assert(!(t1[j].kind is Eof));
    }
}

/// A source is scanned one way only: any two token sequences that `tokenize`
/// could give for it have the same length and the same tokens.
pub proof fn law_tokens_determined(s: Seq<char>, t1: Seq<Token>, t2: Seq<Token>)
    requires
        tokens_ok(s, t1),
        tokens_ok(s, t2),
    ensures
        t1.len() == t2.len(),
        forall|j: int| 0 <= j < t1.len() ==> same_token(#[trigger] t1[j], t2[j]),
{
    let e1 = choose|e: Seq<int>| lexed(s, t1, e);
    let e2 = choose|e: Seq<int>| lexed(s, t2, e);
    lemma_eof_chains_agree(s, t1, e1, t2, e2);
}

/// Where two readings of a string-literal body from `p` both end well, the
/// text between their ends reads well too.
proof fn lemma_body_boundary(s: Seq<char>, p: int, e1: int, e2: int)
    requires
        0 <= p <= e1 <= e2 <= s.len(),
        escapes_ok(s.subrange(p, e1)),
        escapes_ok(s.subrange(p, e2)),
    ensures
        escapes_ok(s.subrange(e1, e2)),
    decreases e1 - p,
{
    if p < e1 {
        let b1 = s.subrange(p, e1);
        let b2 = s.subrange(p, e2);
        assert(b1[0] == s[p]);
        assert(b2[0] == s[p]);
        if s[p] == '\\' {
            assert(b1.skip(2) =~= s.subrange(p + 2, e1));
            assert(b2.skip(2) =~= s.subrange(p + 2, e2));
            lemma_body_boundary(s, p + 2, e1, e2);
        } else {
            assert(b1.skip(1) =~= s.subrange(p + 1, e1));
            assert(b2.skip(1) =~= s.subrange(p + 1, e2));
            lemma_body_boundary(s, p + 1, e1, e2);
        }
    }
}

/// The first character of a well-read, non-empty body.
proof fn lemma_body_head(s: Seq<char>, x: int, y: int)
    requires
        0 <= x < y <= s.len(),
        escapes_ok(s.subrange(x, y)),
    ensures
        s[x] != '"',
        s[x] != '\n',
        s[x] == '\\' ==> x + 2 <= y && is_escape_char(s[x + 1]),
{
    let b = s.subrange(x, y);
    assert(b[0] == s[x]);
    if s[x] == '\\' {
        assert(b[1] == s[x + 1]);
    }
}

/// A string literal opened at `a` and closed by the quote at `q` is neither
/// unterminated nor holds a bad escape.
proof fn lemma_closed_string_no_error(s: Seq<char>, a: int, q: int)
    requires
        0 <= a < q < s.len(),
        s[q] == '"',
        escapes_ok(s.subrange(a + 1, q)),
    ensures
        forall|k: int| !(#[trigger] string_stops(s, a, k)),
        forall|j: int, ch: char| !(#[trigger] bad_escape_at(s, a, j, ch) && !is_escape_char(ch)),
{
    assert forall|k: int| !(#[trigger] string_stops(s, a, k)) by {
        if string_stops(s, a, k) {
            if k < q {
                lemma_body_boundary(s, a + 1, k, q);
                lemma_body_head(s, k, q);
            } else if q < k {
                lemma_body_boundary(s, a + 1, q, k);
                lemma_body_head(s, q, k);
            }
        }
    }
    assert forall|j: int, ch: char| !(#[trigger] bad_escape_at(s, a, j, ch) && !is_escape_char(ch)) by {
        if bad_escape_at(s, a, j, ch) && !is_escape_char(ch) {
            if j - 1 < q {
                lemma_body_boundary(s, a + 1, j - 1, q);
                lemma_body_head(s, j - 1, q);
            } else if q < j - 1 {
                lemma_body_boundary(s, a + 1, q, j - 1);
                lemma_body_head(s, q, j - 1);
            }
        }
    }
}

/// A failing scan at `a` fails in one way only.
proof fn lemma_error_unique(s: Seq<char>, a: int, e1: LexError, e2: LexError)
    requires
        error_at(s, a, e1),
        error_at(s, a, e2),
    ensures
        e1 == e2,
{
    match (e1, e2) {
        (LexError::UnterminatedString { .. }, LexError::UnknownEscape { ch, .. }) => {
            let k = choose|k: int| #[trigger] string_stops(s, a, k);
            let j = choose|j: int| #[trigger] bad_escape_at(s, a, j, ch) && (e2->UnknownEscape_line as int, e2->UnknownEscape_col as int) == line_col(s, j + 1);
            lemma_stop_vs_bad(s, a, k, j, ch);
        },
        (LexError::UnknownEscape { ch, .. }, LexError::UnterminatedString { .. }) => {
            let k = choose|k: int| #[trigger] string_stops(s, a, k);
            let j = choose|j: int| #[trigger] bad_escape_at(s, a, j, ch) && (e1->UnknownEscape_line as int, e1->UnknownEscape_col as int) == line_col(s, j + 1);
            lemma_stop_vs_bad(s, a, k, j, ch);
        },
        (LexError::UnknownEscape { ch: c1, .. }, LexError::UnknownEscape { ch: c2, .. }) => {
            let j1 = choose|j: int| #[trigger] bad_escape_at(s, a, j, c1) && (e1->UnknownEscape_line as int, e1->UnknownEscape_col as int) == line_col(s, j + 1);
            let j2 = choose|j: int| #[trigger] bad_escape_at(s, a, j, c2) && (e2->UnknownEscape_line as int, e2->UnknownEscape_col as int) == line_col(s, j + 1);
            if j1 < j2 {
                lemma_body_boundary(s, a + 1, j1 - 1, j2 - 1);
                lemma_body_head(s, j1 - 1, j2 - 1);
            } else if j2 < j1 {
                lemma_body_boundary(s, a + 1, j2 - 1, j1 - 1);
                lemma_body_head(s, j2 - 1, j1 - 1);
            }
        },
        _ => {},
    }
}

/// A literal body cannot both run to a stop and hold a bad escape.
proof fn lemma_stop_vs_bad(s: Seq<char>, a: int, k: int, j: int, ch: char)
    ensures
        !(string_stops(s, a, k) && bad_escape_at(s, a, j, ch) && !is_escape_char(ch)),
{
    if string_stops(s, a, k) && bad_escape_at(s, a, j, ch) && !is_escape_char(ch) {
        let q = j - 1;
        if q < k {
            lemma_body_boundary(s, a + 1, q, k);
            lemma_body_head(s, q, k);
        } else if k < q {
            lemma_body_boundary(s, a + 1, k, q);
            lemma_body_head(s, k, q);
        }
    }
}

/// A step that reads a token at some place does not fail there.
proof fn lemma_ok_excludes_error(s: Seq<char>, i: int, i1: int, tok: Token, e: LexError)
    requires
        0 <= i <= s.len(),
        step_ok(s, i, i1, Ok::<Token, LexError>(tok)),
    ensures
        !error_at(s, skip_from(s, i), e),
{
    lemma_skip_bounds(s, i);
    let a = skip_from(s, i);
    if a < s.len() {
        let l = tok.lexeme@;
        assert(l[0] == s[a]);
        if tok.kind is Number {
            lemma_number_starts_with_digit(l);
        }
        if s[a] == '"' {
            assert(tok.kind is StringLit);
            assert(l.subrange(1, l.len() - 1) =~= s.subrange(a + 1, i1 - 1));
            assert(s[i1 - 1] == l[l.len() - 1]);
            lemma_closed_string_no_error(s, a, i1 - 1);
        } else {
            assert(starts_token(s[a]));
        }
    }
}

/// One scanning step from a given index either reads a token or fails, the
/// same way each time; a failure is always the same error.
pub proof fn law_step_result_determined(
    s: Seq<char>,
    i: int,
    i1: int,
    i2: int,
    r1: Result<Token, LexError>,
    r2: Result<Token, LexError>,
)
    requires
        0 <= i <= s.len(),
        step_ok(s, i, i1, r1),
        step_ok(s, i, i2, r2),
    ensures
        r1 is Ok <==> r2 is Ok,
        r1 is Err ==> r1 == r2,
{
    match (r1, r2) {
        (Ok(t), Err(e)) => lemma_ok_excludes_error(s, i, i1, t, e),
        (Err(e), Ok(t)) => lemma_ok_excludes_error(s, i, i2, t, e),
        (Err(e1), Err(e2)) => lemma_error_unique(s, skip_from(s, i), e1, e2),
        _ => {},
    }
}

/// Steps that read tokens stop within the source.
proof fn lemma_last_end_bounds(s: Seq<char>, toks: Seq<Token>, ends: Seq<int>, k: int)
    requires
        lexed(s, toks, ends),
        0 <= k <= toks.len(),
    ensures
        0 <= last_end(ends.take(k)) <= s.len(),
{
    if k > 0 {
        assert(step_ok(s, last_end(ends.take(k - 1)), ends[k - 1], Ok::<Token, LexError>(toks[k - 1])));
        assert(ends.take(k).last() == ends[k - 1]);
    }
}

/// Once a step has read the end of the source, every later step ends there.
proof fn lemma_ends_stay(s: Seq<char>, toks: Seq<Token>, ends: Seq<int>, m: int, j: int)
    requires
        lexed(s, toks, ends),
        0 <= m <= j < toks.len(),
        ends[m] == s.len(),
    ensures
        ends[j] == s.len(),
    decreases j - m,
{
    if m < j {
        lemma_ends_stay(s, toks, ends, m, j - 1);
        assert(step_ok(s, last_end(ends.take(j)), ends[j], Ok::<Token, LexError>(toks[j])));
        assert(ends.take(j).last() == ends[j - 1]);
        lemma_skip_bounds(s, s.len() as int);
    }
}

/// No chain of steps from the start of a source ends in an error when some
/// chain reads the end of input.
proof fn lemma_eof_chain_excludes_error(
    s: Seq<char>,
    t: Seq<Token>,
    et: Seq<int>,
    toks: Seq<Token>,
    ends: Seq<int>,
    e: LexError,
)
    requires
        lexed(s, t, et),
        t.len() >= 1,
        t[t.len() - 1].kind is Eof,
        lexed(s, toks, ends),
    ensures
        !error_at(s, skip_from(s, last_end(ends)), e),
{
    let n = toks.len() as int;
    let m = t.len() as int;
    assert(ends.take(n) =~= ends);
    if n < m {
        lemma_prefix_determined(s, toks, ends, t, et, n);
        lemma_last_end_bounds(s, t, et, n);
        assert(step_ok(s, last_end(et.take(n)), et[n], Ok::<Token, LexError>(t[n])));
        lemma_ok_excludes_error(s, last_end(et.take(n)), et[n], t[n], e);
    } else {
        lemma_prefix_determined(s, t, et, toks, ends, m);
        assert(step_ok(s, last_end(et.take(m - 1)), et[m - 1], Ok::<Token, LexError>(t[m - 1])));
        lemma_last_end_bounds(s, t, et, m - 1);
        lemma_skip_bounds(s, last_end(et.take(m - 1)));
        assert(et.take(m)[m - 1] == ends.take(m)[m - 1]);
        assert(ends[m - 1] == s.len());
        lemma_ends_stay(s, toks, ends, m - 1, n - 1);
        lemma_skip_bounds(s, s.len() as int);
    }
}

/// A source whose scan reads all its tokens never fails to scan: no chain
/// of steps from its start ends in an error.
pub proof fn law_tokens_exclude_error(s: Seq<char>, t: Seq<Token>, toks: Seq<Token>, ends: Seq<int>, e: LexError)
    requires
        tokens_ok(s, t),
        lexed(s, toks, ends),
    ensures
        !error_at(s, skip_from(s, last_end(ends)), e),
{
    let et = choose|x: Seq<int>| lexed(s, t, x);
    lemma_eof_chain_excludes_error(s, t, et, toks, ends, e);
}

/// Two chains of steps from the start of a source that end in an error end
/// in the same error.
pub proof fn law_lex_error_determined(
    s: Seq<char>,
    t1: Seq<Token>,
    e1: Seq<int>,
    x1: LexError,
    t2: Seq<Token>,
    e2: Seq<int>,
    x2: LexError,
)
    requires
        lexed(s, t1, e1),
        lexed(s, t2, e2),
        error_at(s, skip_from(s, last_end(e1)), x1),
        error_at(s, skip_from(s, last_end(e2)), x2),
    ensures
        x1 == x2,
{
    let n1 = t1.len() as int;
    let n2 = t2.len() as int;
    assert(e1.take(n1) =~= e1);
    assert(e2.take(n2) =~= e2);
    if n1 < n2 {
        lemma_prefix_determined(s, t1, e1, t2, e2, n1);
        lemma_last_end_bounds(s, t2, e2, n1);
        assert(step_ok(s, last_end(e2.take(n1)), e2[n1], Ok::<Token, LexError>(t2[n1])));
        lemma_ok_excludes_error(s, last_end(e2.take(n1)), e2[n1], t2[n1], x1);
    } else if n2 < n1 {
        lemma_prefix_determined(s, t2, e2, t1, e1, n2);
        lemma_last_end_bounds(s, t1, e1, n2);
        assert(step_ok(s, last_end(e1.take(n2)), e1[n2], Ok::<Token, LexError>(t1[n2])));
        lemma_ok_excludes_error(s, last_end(e1.take(n2)), e1[n2], t1[n2], x2);
    } else {
        lemma_prefix_determined(s, t1, e1, t2, e2, n1);
        lemma_error_unique(s, skip_from(s, last_end(e1)), x1, x2);
    }
}

/// The UTF-8 encoding of two texts one after the other is their encodings one
/// after the other.
proof fn lemma_encode_concat(x: Seq<char>, y: Seq<char>)
    ensures
        encode_utf8(x + y) == encode_utf8(x) + encode_utf8(y),
    decreases x.len(),
{
    if x.len() == 0 {
        assert(x + y =~= y);
        assert(encode_utf8(x) =~= Seq::<u8>::empty());
        assert(encode_utf8(x) + encode_utf8(y) =~= encode_utf8(y));
    } else {
        lemma_encode_concat(x.drop_first(), y);
        assert((x + y).drop_first() =~= x.drop_first() + y);
        assert((x + y)[0] == x[0]);
        assert(encode_utf8(x + y) =~= encode_utf8(x) + encode_utf8(y));
    }
}

/// The bytes of `s[a..b]` are the bytes of `s` between the byte offsets of
/// `a` and `b`.
proof fn lemma_encode_slice(s: Seq<char>, a: int, b: int)
    requires
        0 <= a <= b <= s.len(),
    ensures
        byte_off(s, a) <= byte_off(s, b) <= encode_utf8(s).len(),
        encode_utf8(s.subrange(a, b)) == encode_utf8(s).subrange(byte_off(s, a) as int, byte_off(s, b) as int),
{
    let x = s.take(a);
    let m = s.subrange(a, b);
    let z = s.skip(b);
    assert(s.take(b) =~= x + m);
    assert(s =~= (x + m) + z);
    lemma_encode_concat(x, m);
    lemma_encode_concat(x + m, z);
    assert(encode_utf8(s).subrange(byte_off(s, a) as int, byte_off(s, b) as int) =~= encode_utf8(m));
}

/// Each token of a scanned source covers the source's UTF-8 bytes from its
/// span's start to its span's end and reads as exactly those bytes; its line
/// and column are those of the character its start falls on; the spans come
/// one after the other; the end-of-input token is an empty span at the end.
pub proof fn law_token_bytes(s: Seq<char>, t: Seq<Token>, i: int)
    requires
        tokens_ok(s, t),
        0 <= i < t.len(),
    ensures
        t[i].span.start <= t[i].span.end <= encode_utf8(s).len(),
        encode_utf8(t[i].lexeme@) == encode_utf8(s).subrange(t[i].span.start as int, t[i].span.end as int),
        exists|a: int|
            0 <= a <= s.len() && #[trigger] byte_off(s, a) == t[i].span.start && (
                t[i].span.line as int,
                t[i].span.col as int,
            ) == line_col(s, a),
        i + 1 < t.len() ==> t[i].span.end <= t[i + 1].span.start,
        t[i].kind is Eof ==> t[i].span.start == encode_utf8(s).len() && t[i].span.end == encode_utf8(s).len(),
{
    let ends = choose|e: Seq<int>| lexed(s, t, e);
    assert(step_ok(s, last_end(ends.take(i)), ends[i], Ok::<Token, LexError>(t[i])));
    lemma_last_end_bounds(s, t, ends, i);
    lemma_skip_bounds(s, last_end(ends.take(i)));
    let a = skip_from(s, last_end(ends.take(i)));
    let b = ends[i];
    lemma_encode_slice(s, a, b);
    assert(byte_off(s, a) == t[i].span.start);
    if t[i].kind is Eof {
        assert(s.take(s.len() as int) =~= s);
    }
}

/// One more successful step extends a chain of steps.
proof fn lemma_lexed_push(s: Seq<char>, toks: Seq<Token>, ends: Seq<int>, i1: int, tok: Token)
    requires
        lexed(s, toks, ends),
        step_ok(s, last_end(ends), i1, Ok::<Token, LexError>(tok)),
    ensures
        lexed(s, toks.push(tok), ends.push(i1)),
{
    let n = toks.len() as int;
    let t2 = toks.push(tok);
    let e2 = ends.push(i1);
    assert forall|k: int| 0 <= k < t2.len() implies step_ok(
        s,
        last_end(e2.take(k)),
        e2[k],
        Ok::<Token, LexError>(#[trigger] t2[k]),
    ) by {
        assert(e2.take(k) =~= ends.take(k));
        if k == n {
            assert(ends.take(n) =~= ends);
        } else {
            assert(t2[k] == toks[k]);
        }
    }
}

/// `tokenize` is scanning steps repeated from the start of the source. Once
/// steps have read `toks`, none of them the end of input, the next step
/// settles the outcome: if it fails, the source has no token sequence and
/// every way its scan can fail is that error; if it reads the end of input,
/// the scan cannot fail and the source's tokens are `toks` followed by it.
pub proof fn law_tokenize_is_repeated_steps(
    s: Seq<char>,
    toks: Seq<Token>,
    ends: Seq<int>,
    i1: int,
    r: Result<Token, LexError>,
)
    requires
        lexed(s, toks, ends),
        forall|k: int| 0 <= k < toks.len() ==> !(#[trigger] toks[k].kind is Eof),
        step_ok(s, last_end(ends), i1, r),
    ensures
        r is Err ==> forall|v: Seq<Token>| !#[trigger] tokens_ok(s, v),
        r is Err ==> forall|t2: Seq<Token>, e2: Seq<int>, x: LexError|
            #![trigger lexed(s, t2, e2), error_at(s, skip_from(s, last_end(e2)), x)]
            lexed(s, t2, e2) && error_at(s, skip_from(s, last_end(e2)), x) ==> r == Err::<Token, LexError>(x),
        (r is Ok && r->Ok_0.kind is Eof) ==> forall|t2: Seq<Token>, e2: Seq<int>, x: LexError|
            #![trigger lexed(s, t2, e2), error_at(s, skip_from(s, last_end(e2)), x)]
            lexed(s, t2, e2) ==> !error_at(s, skip_from(s, last_end(e2)), x),
        (r is Ok && r->Ok_0.kind is Eof) ==> forall|v: Seq<Token>|
            #[trigger] tokens_ok(s, v) ==> v.len() == toks.len() + 1 && forall|j: int|
                0 <= j < v.len() ==> same_token(#[trigger] v[j], toks.push(r->Ok_0)[j]),
{
    lemma_last_end_bounds(s, toks, ends, toks.len() as int);
    assert(ends.take(toks.len() as int) =~= ends);
    match r {
        Err(e) => {
            assert forall|v: Seq<Token>| !#[trigger] tokens_ok(s, v) by {
                if tokens_ok(s, v) {
                    law_tokens_exclude_error(s, v, toks, ends, e);
                }
            }
            assert forall|t2: Seq<Token>, e2: Seq<int>, x: LexError|
                lexed(s, t2, e2) && error_at(s, skip_from(s, last_end(e2)), x) implies r == Err::<
                Token,
                LexError,
            >(x) by {
                law_lex_error_determined(s, toks, ends, e, t2, e2, x);
            }
        },
        Ok(tok) => {
            if tok.kind is Eof {
                let t1 = toks.push(tok);
                let e1 = ends.push(i1);
                lemma_lexed_push(s, toks, ends, i1, tok);
                assert(t1[t1.len() - 1] == tok);
                assert forall|t2: Seq<Token>, e2: Seq<int>, x: LexError|
                    lexed(s, t2, e2) implies !error_at(s, skip_from(s, last_end(e2)), x) by {
                    lemma_eof_chain_excludes_error(s, t1, e1, t2, e2, x);
                }
                assert forall|v: Seq<Token>| #[trigger] tokens_ok(s, v) implies v.len() == toks.len() + 1 && forall|j: int|
                    0 <= j < v.len() ==> same_token(#[trigger] v[j], t1[j]) by {
                    let ev = choose|x: Seq<int>| lexed(s, v, x);
                    assert forall|k: int| 0 <= k < t1.len() - 1 implies !(#[trigger] t1[k].kind is Eof) by {
                        assert(t1[k] == toks[k]);
                    }
                    lemma_eof_chains_agree(s, v, ev, t1, e1);
                }
            }
        },
    }
}


/// The reserved words of HULK.
pub open spec fn reserved_words() -> Seq<Seq<char>> {
    seq![
        "let"@,
        "in"@,
        "if"@,
        "elif"@,
        "else"@,
        "while"@,
        "for"@,
        "function"@,
        "class"@,
        "type"@,
        "is"@,
        "inherits"@,
        "new"@,
        "self"@,
        "case"@,
        "of"@,
        "with"@,
        "as"@,
        "null"@,
        "true"@,
        "false"@,
        "protocol"@,
        "def"@,
        "default"@,
    ]
}

/// `w` with its first letter made upper case (ASCII).
pub open spec fn capitalized(w: Seq<char>) -> Seq<char> {
    if w.len() == 0 {
        w
    } else if 97 <= (w[0] as u32) <= 122 {
        seq![((w[0] as u32) - 32) as char] + w.skip(1)
    } else {
        w
    }
}

/// The name of token kind `k` spells the word `w`: it is `w` capitalized,
/// with `_` after it where the word is one of Rust's own (`Self_`).
pub open spec fn kind_spells(k: TokenKind, w: Seq<char>) -> bool {
    k.spec_variant_name() == capitalized(w) || k.spec_variant_name() == capitalized(w) + "_"@
}

proof fn lemma_keyword_names(w: Seq<char>)
    ensures
        keyword_kind(w) is Some ==> reserved_words().contains(w) && kind_spells(keyword_kind(w)->Some_0, w),
{
    reveal_strlit("_");
    if w == "let"@ {
        reveal_strlit("let");
        reveal_strlit("Let");
        assert(reserved_words()[0] == w);
        assert(capitalized(w) =~= "Let"@);
    } else if w == "in"@ {
        reveal_strlit("in");
        reveal_strlit("In");
        assert(reserved_words()[1] == w);
        assert(capitalized(w) =~= "In"@);
    } else if w == "if"@ {
        reveal_strlit("if");
        reveal_strlit("If");
        assert(reserved_words()[2] == w);
        assert(capitalized(w) =~= "If"@);
    } else if w == "elif"@ {
        reveal_strlit("elif");
        reveal_strlit("Elif");
        assert(reserved_words()[3] == w);
        assert(capitalized(w) =~= "Elif"@);
    } else if w == "else"@ {
        reveal_strlit("else");
        reveal_strlit("Else");
        assert(reserved_words()[4] == w);
        assert(capitalized(w) =~= "Else"@);
    } else if w == "while"@ {
        reveal_strlit("while");
        reveal_strlit("While");
        assert(reserved_words()[5] == w);
        assert(capitalized(w) =~= "While"@);
    } else if w == "for"@ {
        reveal_strlit("for");
        reveal_strlit("For");
        assert(reserved_words()[6] == w);
        assert(capitalized(w) =~= "For"@);
    } else if w == "function"@ {
        reveal_strlit("function");
        reveal_strlit("Function");
        assert(reserved_words()[7] == w);
        assert(capitalized(w) =~= "Function"@);
    } else if w == "class"@ {
        reveal_strlit("class");
        reveal_strlit("Class");
        assert(reserved_words()[8] == w);
        assert(capitalized(w) =~= "Class"@);
    } else if w == "type"@ {
        reveal_strlit("type");
        reveal_strlit("Type");
        assert(reserved_words()[9] == w);
        assert(capitalized(w) =~= "Type"@);
    } else if w == "is"@ {
        reveal_strlit("is");
        reveal_strlit("Is");
        assert(reserved_words()[10] == w);
        assert(capitalized(w) =~= "Is"@);
    } else if w == "inherits"@ {
        reveal_strlit("inherits");
        reveal_strlit("Inherits");
        assert(reserved_words()[11] == w);
        assert(capitalized(w) =~= "Inherits"@);
    } else if w == "new"@ {
        reveal_strlit("new");
        reveal_strlit("New");
        assert(reserved_words()[12] == w);
        assert(capitalized(w) =~= "New"@);
    } else if w == "self"@ {
        reveal_strlit("self");
        reveal_strlit("Self_");
        assert(reserved_words()[13] == w);
        assert(capitalized(w) + "_"@ =~= "Self_"@);
    } else if w == "case"@ {
        reveal_strlit("case");
        reveal_strlit("Case");
        assert(reserved_words()[14] == w);
        assert(capitalized(w) =~= "Case"@);
    } else if w == "of"@ {
        reveal_strlit("of");
        reveal_strlit("Of");
        assert(reserved_words()[15] == w);
        assert(capitalized(w) =~= "Of"@);
    } else if w == "with"@ {
        reveal_strlit("with");
        reveal_strlit("With");
        assert(reserved_words()[16] == w);
        assert(capitalized(w) =~= "With"@);
    } else if w == "as"@ {
        reveal_strlit("as");
        reveal_strlit("As");
        assert(reserved_words()[17] == w);
        assert(capitalized(w) =~= "As"@);
    } else if w == "null"@ {
        reveal_strlit("null");
        reveal_strlit("Null");
        assert(reserved_words()[18] == w);
        assert(capitalized(w) =~= "Null"@);
    } else if w == "true"@ {
        reveal_strlit("true");
        reveal_strlit("True");
        assert(reserved_words()[19] == w);
        assert(capitalized(w) =~= "True"@);
    } else if w == "false"@ {
        reveal_strlit("false");
        reveal_strlit("False");
        assert(reserved_words()[20] == w);
        assert(capitalized(w) =~= "False"@);
    } else if w == "protocol"@ {
        reveal_strlit("protocol");
        reveal_strlit("Protocol");
        assert(reserved_words()[21] == w);
        assert(capitalized(w) =~= "Protocol"@);
    } else if w == "def"@ {
        reveal_strlit("def");
        reveal_strlit("Def");
        assert(reserved_words()[22] == w);
        assert(capitalized(w) =~= "Def"@);
    } else if w == "default"@ {
        reveal_strlit("default");
        reveal_strlit("Default");
        assert(reserved_words()[23] == w);
        assert(capitalized(w) =~= "Default"@);
    }
}

/// The scanner's keywords are exactly the reserved words of HULK, and each
/// reads as the token kind named after it: a reserved word is a keyword, a
/// keyword is a reserved word, and the kind's name is the word capitalized.
pub proof fn law_reserved_words(w: Seq<char>)
    ensures
        reserved_words().contains(w) ==> keyword_kind(w) is Some,
        keyword_kind(w) is Some ==> reserved_words().contains(w) && kind_spells(keyword_kind(w)->Some_0, w),
{
    lemma_keyword_names(w);
    if reserved_words().contains(w) {
        let i = choose|i: int| 0 <= i < reserved_words().len() && reserved_words()[i] == w;
    reveal_strlit("let");
    reveal_strlit("in");
    reveal_strlit("if");
    reveal_strlit("elif");
    reveal_strlit("else");
    reveal_strlit("while");
    reveal_strlit("for");
    reveal_strlit("function");
    reveal_strlit("class");
    reveal_strlit("type");
    reveal_strlit("is");
    reveal_strlit("inherits");
    reveal_strlit("new");
    reveal_strlit("self");
    reveal_strlit("case");
    reveal_strlit("of");
    reveal_strlit("with");
    reveal_strlit("as");
    reveal_strlit("null");
    reveal_strlit("true");
    reveal_strlit("false");
    reveal_strlit("protocol");
    reveal_strlit("def");
    reveal_strlit("default");
    if i == 0 {
        assert(w == "let"@);
    } else if i == 1 {
        assert(w == "in"@);
    } else if i == 2 {
        assert(w == "if"@);
    } else if i == 3 {
        assert(w == "elif"@);
    } else if i == 4 {
        assert(w == "else"@);
    } else if i == 5 {
        assert(w == "while"@);
    } else if i == 6 {
        assert(w == "for"@);
    } else if i == 7 {
        assert(w == "function"@);
    } else if i == 8 {
        assert(w == "class"@);
    } else if i == 9 {
        assert(w == "type"@);
    } else if i == 10 {
        assert(w == "is"@);
    } else if i == 11 {
        assert(w == "inherits"@);
    } else if i == 12 {
        assert(w == "new"@);
    } else if i == 13 {
        assert(w == "self"@);
    } else if i == 14 {
        assert(w == "case"@);
    } else if i == 15 {
        assert(w == "of"@);
    } else if i == 16 {
        assert(w == "with"@);
    } else if i == 17 {
        assert(w == "as"@);
    } else if i == 18 {
        assert(w == "null"@);
    } else if i == 19 {
        assert(w == "true"@);
    } else if i == 20 {
        assert(w == "false"@);
    } else if i == 21 {
        assert(w == "protocol"@);
    } else if i == 22 {
        assert(w == "def"@);
    } else if i == 23 {
        assert(w == "default"@);
        }
    }
}

/// A reserved word in the source scans to its keyword token, never to a name.
pub proof fn law_reserved_word_scans(s: Seq<char>, tok: Token, a: int, b: int)
    requires
        token_at(s, tok, a, b),
        reserved_words().contains(tok.lexeme@),
    ensures
        !(tok.kind is Ident),
        keyword_kind(tok.lexeme@) == Some(tok.kind),
        kind_spells(tok.kind, tok.lexeme@),
{
    let w = tok.lexeme@;
    law_reserved_words(w);
    let i = choose|i: int| 0 <= i < reserved_words().len() && reserved_words()[i] == w;
    reveal_strlit("let");
    reveal_strlit("in");
    reveal_strlit("if");
    reveal_strlit("elif");
    reveal_strlit("else");
    reveal_strlit("while");
    reveal_strlit("for");
    reveal_strlit("function");
    reveal_strlit("class");
    reveal_strlit("type");
    reveal_strlit("is");
    reveal_strlit("inherits");
    reveal_strlit("new");
    reveal_strlit("self");
    reveal_strlit("case");
    reveal_strlit("of");
    reveal_strlit("with");
    reveal_strlit("as");
    reveal_strlit("null");
    reveal_strlit("true");
    reveal_strlit("false");
    reveal_strlit("protocol");
    reveal_strlit("def");
    reveal_strlit("default");
    if i == 0 {
        assert(w == "let"@);
    } else if i == 1 {
        assert(w == "in"@);
    } else if i == 2 {
        assert(w == "if"@);
    } else if i == 3 {
        assert(w == "elif"@);
    } else if i == 4 {
        assert(w == "else"@);
    } else if i == 5 {
        assert(w == "while"@);
    } else if i == 6 {
        assert(w == "for"@);
    } else if i == 7 {
        assert(w == "function"@);
    } else if i == 8 {
        assert(w == "class"@);
    } else if i == 9 {
        assert(w == "type"@);
    } else if i == 10 {
        assert(w == "is"@);
    } else if i == 11 {
        assert(w == "inherits"@);
    } else if i == 12 {
        assert(w == "new"@);
    } else if i == 13 {
        assert(w == "self"@);
    } else if i == 14 {
        assert(w == "case"@);
    } else if i == 15 {
        assert(w == "of"@);
    } else if i == 16 {
        assert(w == "with"@);
    } else if i == 17 {
        assert(w == "as"@);
    } else if i == 18 {
        assert(w == "null"@);
    } else if i == 19 {
        assert(w == "true"@);
    } else if i == 20 {
        assert(w == "false"@);
    } else if i == 21 {
        assert(w == "protocol"@);
    } else if i == 22 {
        assert(w == "def"@);
    } else if i == 23 {
        assert(w == "default"@);
    }
    if tok.kind is Number {
        lemma_number_starts_with_digit(w);
    }
}

} // verus!
