//! The lexer of the small expression language: keywords, names, integer
//! literals and one-character operators and delimiters, longest match first;
//! white space and characters that begin no token are left out.
use vstd::prelude::*;
use crate::text::{collect_chars, string_of, str_is};
use super::token::Token;

verus! {

/// A piece of source text that becomes one token.
pub ghost enum Piece {
    /// A letter or `_` followed by letters, digits and `_`.
    Word(Seq<char>),
    /// One or more decimal digits.
    Digits(Seq<char>),
    /// An operator or delimiter.
    Mark(char),
}

/// An ASCII letter or `_`.
pub open spec fn word_start(c: char) -> bool {
    (97 <= (c as u32) <= 122) || (65 <= (c as u32) <= 90) || c == '_'
}

/// An ASCII decimal digit.
pub open spec fn digit(c: char) -> bool {
    48 <= (c as u32) <= 57
}

/// The first index at or after `i` whose character cannot continue a word.
pub open spec fn word_end(s: Seq<char>, i: int) -> int
    decreases s.len() - i,
{
    if 0 <= i < s.len() && (word_start(s[i]) || digit(s[i])) {
        word_end(s, i + 1)
    } else {
        i
    }
}

/// The first index at or after `i` that holds no digit.
pub open spec fn digits_end(s: Seq<char>, i: int) -> int
    decreases s.len() - i,
{
    if 0 <= i < s.len() && digit(s[i]) {
        digits_end(s, i + 1)
    } else {
        i
    }
}

pub proof fn lemma_word_end(s: Seq<char>, i: int)
    ensures
        word_end(s, i) >= i,
        0 <= i <= s.len() ==> word_end(s, i) <= s.len(),
    decreases s.len() - i,
{
    if 0 <= i < s.len() && (word_start(s[i]) || digit(s[i])) {
        lemma_word_end(s, i + 1);
    }
}

pub proof fn lemma_digits_end(s: Seq<char>, i: int)
    ensures
        digits_end(s, i) >= i,
        0 <= i <= s.len() ==> digits_end(s, i) <= s.len(),
    decreases s.len() - i,
{
    if 0 <= i < s.len() && digit(s[i]) {
        lemma_digits_end(s, i + 1);
    }
}

/// The operator or delimiter a character stands for.
pub open spec fn mark_token(c: char) -> Option<Token> {
    match c {
        '+' => Some(Token::Plus),
        '-' => Some(Token::Minus),
        '*' => Some(Token::Star),
        '/' => Some(Token::Slash),
        '(' => Some(Token::LParen),
        ')' => Some(Token::RParen),
        '{' => Some(Token::LBrace),
        '}' => Some(Token::RBrace),
        ';' => Some(Token::Semicolon),
        ':' => Some(Token::Colon),
        '=' => Some(Token::Assign),
        ',' => Some(Token::Comma),
        _ => None,
    }
}

/// The keyword a word spells, if any.
pub open spec fn keyword_token(w: Seq<char>) -> Option<Token> {
    if w == "let"@ {
        Some(Token::Let)
    } else if w == "fn"@ {
        Some(Token::Fn)
    } else if w == "if"@ {
        Some(Token::If)
    } else if w == "else"@ {
        Some(Token::Else)
    } else if w == "true"@ {
        Some(Token::True)
    } else if w == "false"@ {
        Some(Token::False)
    } else {
        None
    }
}

/// The pieces of `s` from index `i` on: at each place the longest word or
/// run of digits, or a one-character mark; anything else is passed over.
pub open spec fn pieces(s: Seq<char>, i: int) -> Seq<Piece>
    decreases s.len() - i,
{
    if i < 0 || i >= s.len() {
        Seq::empty()
    } else if word_start(s[i]) {
        let e = word_end(s, i + 1);
        proof {
            lemma_word_end(s, i + 1);
        }
        seq![Piece::Word(s.subrange(i, e))] + pieces(s, e)
    } else if digit(s[i]) {
        let e = digits_end(s, i + 1);
        proof {
            lemma_digits_end(s, i + 1);
        }
        seq![Piece::Digits(s.subrange(i, e))] + pieces(s, e)
    } else if mark_token(s[i]) is Some {
        seq![Piece::Mark(s[i])] + pieces(s, i + 1)
    } else {
        pieces(s, i + 1)
    }
}

/// The token a piece becomes: a keyword, a name, an integer literal or a mark.
pub open spec fn token_of(t: Token, p: Piece) -> bool {
    match p {
        Piece::Word(w) => match keyword_token(w) {
            Some(k) => t == k,
            None => t is Ident && t.payload() == w,
        },
        Piece::Digits(d) => t is Int && t.payload() == d,
        Piece::Mark(c) => mark_token(c) == Some(t),
    }
}

/// `toks` are the tokens of `s`: one for each of its pieces, in order.
pub open spec fn lexed_as(s: Seq<char>, toks: Seq<Token>) -> bool {
    &&& toks.len() == pieces(s, 0).len()
    &&& forall|k: int| 0 <= k < toks.len() ==> token_of(#[trigger] toks[k], pieces(s, 0)[k])
}

fn keyword_of(w: &String) -> (r: Option<Token>)
    ensures
        r == keyword_token(w@),
{
    if str_is(w, "let") {
        Some(Token::Let)
    } else if str_is(w, "fn") {
        Some(Token::Fn)
    } else if str_is(w, "if") {
        Some(Token::If)
    } else if str_is(w, "else") {
        Some(Token::Else)
    } else if str_is(w, "true") {
        Some(Token::True)
    } else if str_is(w, "false") {
        Some(Token::False)
    } else {
        None
    }
}

fn mark_of(c: char) -> (r: Option<Token>)
    ensures
        r == mark_token(c),
{
    match c {
        '+' => Some(Token::Plus),
        '-' => Some(Token::Minus),
        '*' => Some(Token::Star),
        '/' => Some(Token::Slash),
        '(' => Some(Token::LParen),
        ')' => Some(Token::RParen),
        '{' => Some(Token::LBrace),
        '}' => Some(Token::RBrace),
        ';' => Some(Token::Semicolon),
        ':' => Some(Token::Colon),
        '=' => Some(Token::Assign),
        ',' => Some(Token::Comma),
        _ => None,
    }
}

fn is_word_start(c: char) -> (r: bool)
    ensures
        r == word_start(c),
{
    let u = c as u32;
    (97 <= u && u <= 122) || (65 <= u && u <= 90) || c == '_'
}

fn is_digit(c: char) -> (r: bool)
    ensures
        r == digit(c),
{
    let u = c as u32;
    48 <= u && u <= 57
}

/// The tokens of `source`, one for each of its pieces, in order.
pub fn lex(source: &str) -> (r: Vec<Token>)
    ensures
        lexed_as(source@, r@),
{
    let chars = collect_chars(source);
    let ghost s = chars@;
    let n = chars.len();
    let mut out: Vec<Token> = Vec::new();
    let ghost mut done: Seq<Piece> = Seq::empty();
    let mut i: usize = 0;
    proof {
        assert(pieces(s, 0) =~= done + pieces(s, 0));
    }
    while i < n
        invariant
            s == chars@,
            s == source@,
            n == s.len(),
            i <= n,
            pieces(s, 0) == done + pieces(s, i as int),
            out@.len() == done.len(),
            forall|k: int| 0 <= k < out@.len() ==> token_of(#[trigger] out@[k], done[k]),
        decreases n - i,
    {
        let c = chars[i];
        let ghost before = out@;
        if is_word_start(c) {
            let mut j = i + 1;
            while j < n && (is_word_start(chars[j]) || is_digit(chars[j]))
                invariant
                    s == chars@,
                    n == s.len(),
                    i < j <= n,
                    word_end(s, i + 1) == word_end(s, j as int),
                decreases n - j,
            {
                j += 1;
            }
            let w = string_of(&chars, i, j);
            let ghost piece = Piece::Word(s.subrange(i as int, j as int));
            let tok = match keyword_of(&w) {
                Some(k) => k,
                None => Token::Ident(w),
            };
            out.push(tok);
            proof {
                assert(pieces(s, i as int) == seq![piece] + pieces(s, j as int));
                assert(done.push(piece) + pieces(s, j as int) =~= done + (seq![piece] + pieces(s, j as int)));
                done = done.push(piece);
            }
            i = j;
        } else if is_digit(c) {
            let mut j = i + 1;
            while j < n && is_digit(chars[j])
                invariant
                    s == chars@,
                    n == s.len(),
                    i < j <= n,
                    digits_end(s, i + 1) == digits_end(s, j as int),
                decreases n - j,
            {
                j += 1;
            }
            let d = string_of(&chars, i, j);
            let ghost piece = Piece::Digits(s.subrange(i as int, j as int));
            out.push(Token::Int(d));
            proof {
                assert(pieces(s, i as int) == seq![piece] + pieces(s, j as int));
                assert(done.push(piece) + pieces(s, j as int) =~= done + (seq![piece] + pieces(s, j as int)));
                done = done.push(piece);
            }
            i = j;
        } else {
            match mark_of(c) {
                Some(t) => {
                    let ghost piece = Piece::Mark(c);
                    out.push(t);
                    proof {
                        assert(pieces(s, i as int) == seq![piece] + pieces(s, i + 1));
                        assert(done.push(piece) + pieces(s, i + 1) =~= done + (seq![piece] + pieces(s, i + 1)));
                        done = done.push(piece);
                    }
                },
                None => {},
            }
            i = i + 1;
        }
        proof {
            assert forall|k: int| 0 <= k < out@.len() implies token_of(#[trigger] out@[k], done[k]) by {
                if k < before.len() {
                    assert(out@[k] == before[k]);
                }
            }
        }
    }
    proof {
        assert(pieces(s, n as int) =~= Seq::<Piece>::empty());
        assert(done + Seq::<Piece>::empty() =~= done);
    }
    out
}

} // verus!
