//! The scanner. It reads the source as a sequence of characters and cuts it
//! into tokens; spans give byte offsets into the UTF-8 text and 1-based lines
//! and columns.
use vstd::prelude::*;
use vstd::string::*;
use vstd::utf8::*;
use crate::text::{collect_chars, string_of, str_is, push_char};
use super::token::{Span, Token, TokenKind};
use super::error::LexError;

verus! {

// ── Character classes ───────────────────────────────────────────────────────

/// The Unicode White_Space property, which `char::is_whitespace` tests: the
/// ASCII tab, line feed, vertical tab, form feed, carriage return and space,
/// the next line and no-break space, the Ogham space mark, the spaces from
/// U+2000 to U+200A, the line and paragraph separators, the narrow no-break
/// space, the medium mathematical space and the ideographic space.
pub open spec fn char_is_whitespace(c: char) -> bool {
    let u = c as u32;
    ||| 0x09 <= u <= 0x0D
    ||| u == 0x20
    ||| u == 0x85
    ||| u == 0xA0
    ||| u == 0x1680
    ||| 0x2000 <= u <= 0x200A
    ||| u == 0x2028
    ||| u == 0x2029
    ||| u == 0x202F
    ||| u == 0x205F
    ||| u == 0x3000
}

/// `char::is_alphabetic` (Unicode Alphabetic property).
pub uninterp spec fn char_is_alphabetic(c: char) -> bool;

/// `char::is_numeric` (Unicode general categories Nd, Nl and No).
pub uninterp spec fn char_is_numeric(c: char) -> bool;

/// `char::is_alphanumeric`: alphabetic or numeric.
pub open spec fn char_is_alphanumeric(c: char) -> bool {
    char_is_alphabetic(c) || char_is_numeric(c)
}

/// Whether `c` has the White_Space property, as `char::is_whitespace` tests.
fn is_whitespace(c: char) -> (r: bool)
    ensures
        r == char_is_whitespace(c),
{
    let u = c as u32;
    (0x09 <= u && u <= 0x0D) || u == 0x20 || u == 0x85 || u == 0xA0 || u == 0x1680 || (0x2000 <= u && u <= 0x200A)
        || u == 0x2028 || u == 0x2029 || u == 0x202F || u == 0x205F || u == 0x3000
}

/// Calls `char::is_alphabetic`; the Unicode tables behind it are named, not
/// written out.
#[verifier::external_body]
fn is_alphabetic(c: char) -> (r: bool)
    ensures
        r == char_is_alphabetic(c),
{
    c.is_alphabetic()
}

/// Calls `char::is_alphanumeric`, which holds of a character that is
/// alphabetic or numeric; the ASCII digits are numeric.
#[verifier::external_body]
fn is_alphanumeric(c: char) -> (r: bool)
    ensures
        r == (char_is_alphabetic(c) || char_is_numeric(c)),
        is_digit(c) ==> r,
{
    c.is_alphanumeric()
}

/// An ASCII decimal digit.
pub open spec fn is_digit(c: char) -> bool {
    48 <= (c as u32) <= 57
}

fn is_ascii_digit(c: char) -> (r: bool)
    ensures
        r == is_digit(c),
{
    let u = c as u32;
    48 <= u && u <= 57
}

pub open spec fn is_ident_start(c: char) -> bool {
    char_is_alphabetic(c) || c == '_'
}

pub open spec fn is_ident_char(c: char) -> bool {
    char_is_alphanumeric(c) || c == '_'
}

// ── Positions ────────────────────────────────────────────────────────────────

/// Number of UTF-8 bytes that encode `c`.
pub open spec fn utf8_width(c: char) -> nat {
    if (c as u32) < 0x80 {
        1
    } else if (c as u32) < 0x800 {
        2
    } else if (c as u32) < 0x10000 {
        3
    } else {
        4
    }
}

/// Byte offset, in the UTF-8 encoding of `s`, of the character at index `i`.
pub open spec fn byte_off(s: Seq<char>, i: int) -> nat {
    encode_utf8(s.take(i)).len()
}

/// Line and column (from 1, columns in characters) of the character at
/// index `i`.
pub open spec fn line_col(s: Seq<char>, i: int) -> (int, int)
    decreases i,
{
    if i <= 0 {
        (1, 1)
    } else {
        let p = line_col(s, i - 1);
        if s[i - 1] == '\n' {
            (p.0 + 1, 1)
        } else {
            (p.0, p.1 + 1)
        }
    }
}

proof fn lemma_encode_push(a: Seq<char>, c: char)
    ensures
        encode_utf8(a.push(c)) == encode_utf8(a) + encode_scalar(c as u32),
    decreases a.len(),
{
    if a.len() == 0 {
        assert(a.push(c).drop_first() =~= Seq::<char>::empty());
        assert(encode_utf8(Seq::<char>::empty()) =~= Seq::<u8>::empty());
        assert(encode_utf8(a) =~= Seq::<u8>::empty());
        assert(encode_utf8(a.push(c)) =~= encode_scalar(c as u32) + Seq::<u8>::empty());
    } else {
        lemma_encode_push(a.drop_first(), c);
        assert(a.push(c).drop_first() =~= a.drop_first().push(c));
        assert(encode_utf8(a.push(c)) =~= encode_scalar(a[0] as u32) + encode_utf8(a.drop_first().push(c)));
    }
}

proof fn lemma_byte_off_step(s: Seq<char>, i: int)
    requires
        0 <= i < s.len(),
    ensures
        byte_off(s, i + 1) == byte_off(s, i) + utf8_width(s[i]),
{
    assert(s.take(i + 1) =~= s.take(i).push(s[i]));
    lemma_encode_push(s.take(i), s[i]);
    char_is_scalar(s[i]);
}

proof fn lemma_byte_off_mono(s: Seq<char>, i: int, j: int)
    requires
        0 <= i <= j <= s.len(),
    ensures
        byte_off(s, i) + (j - i) <= byte_off(s, j),
    decreases j - i,
{
    if i < j {
        lemma_byte_off_mono(s, i, j - 1);
        lemma_byte_off_step(s, j - 1);
    }
}

proof fn lemma_line_col_bound(s: Seq<char>, i: int)
    requires
        0 <= i <= s.len(),
    ensures
        1 <= line_col(s, i).0 <= i + 1,
        1 <= line_col(s, i).1 <= i + 1,
    decreases i,
{
    if i > 0 {
        lemma_line_col_bound(s, i - 1);
    }
}

// ── Token classes ────────────────────────────────────────────────────────────

pub open spec fn is_digits(s: Seq<char>) -> bool {
    s.len() > 0 && forall|i: int| 0 <= i < s.len() ==> is_digit(#[trigger] s[i])
}

/// Digits, optionally followed by `.` and more digits.
pub open spec fn is_number_lexeme(s: Seq<char>) -> bool {
    ||| is_digits(s)
    ||| exists|k: int|
        0 < k < s.len() - 1 && #[trigger] s[k] == '.' && is_digits(s.take(k)) && is_digits(s.skip(k + 1))
}

pub open spec fn is_ident_lexeme(s: Seq<char>) -> bool {
    &&& s.len() > 0
    &&& !is_digit(s[0])
    &&& single_punct(s[0]) is None
    &&& s[0] != '"'
    &&& is_ident_start(s[0])
    &&& forall|i: int| 1 <= i < s.len() ==> is_ident_char(#[trigger] s[i])
}

/// The keyword spelled by `s`, if any.
pub open spec fn keyword_kind(s: Seq<char>) -> Option<TokenKind> {
    if s == "let"@ { Some(TokenKind::Let) }
    else if s == "in"@ { Some(TokenKind::In) }
    else if s == "if"@ { Some(TokenKind::If) }
    else if s == "elif"@ { Some(TokenKind::Elif) }
    else if s == "else"@ { Some(TokenKind::Else) }
    else if s == "while"@ { Some(TokenKind::While) }
    else if s == "for"@ { Some(TokenKind::For) }
    else if s == "function"@ { Some(TokenKind::Function) }
    else if s == "class"@ { Some(TokenKind::Class) }
    else if s == "type"@ { Some(TokenKind::Type) }
    else if s == "is"@ { Some(TokenKind::Is) }
    else if s == "inherits"@ { Some(TokenKind::Inherits) }
    else if s == "new"@ { Some(TokenKind::New) }
    else if s == "self"@ { Some(TokenKind::Self_) }
    else if s == "case"@ { Some(TokenKind::Case) }
    else if s == "of"@ { Some(TokenKind::Of) }
    else if s == "with"@ { Some(TokenKind::With) }
    else if s == "as"@ { Some(TokenKind::As) }
    else if s == "null"@ { Some(TokenKind::Null) }
    else if s == "true"@ { Some(TokenKind::True) }
    else if s == "false"@ { Some(TokenKind::False) }
    else if s == "protocol"@ { Some(TokenKind::Protocol) }
    else if s == "def"@ { Some(TokenKind::Def) }
    else if s == "default"@ { Some(TokenKind::Default) }
    else { None }
}

/// Punctuation and operators of one character.
pub open spec fn single_punct(c: char) -> Option<TokenKind> {
    match c {
        '(' => Some(TokenKind::LParen),
        ')' => Some(TokenKind::RParen),
        '{' => Some(TokenKind::LBrace),
        '}' => Some(TokenKind::RBrace),
        '[' => Some(TokenKind::LBracket),
        ']' => Some(TokenKind::RBracket),
        ',' => Some(TokenKind::Comma),
        ';' => Some(TokenKind::Semicolon),
        '.' => Some(TokenKind::Dot),
        '%' => Some(TokenKind::Percent),
        '^' => Some(TokenKind::Caret),
        '&' => Some(TokenKind::Amp),
        '|' => Some(TokenKind::Pipe),
        ':' => Some(TokenKind::Colon),
        '!' => Some(TokenKind::Bang),
        '=' => Some(TokenKind::Eq),
        '<' => Some(TokenKind::Lt),
        '>' => Some(TokenKind::Gt),
        '-' => Some(TokenKind::Minus),
        '+' => Some(TokenKind::Plus),
        '*' => Some(TokenKind::Star),
        '/' => Some(TokenKind::Slash),
        '@' => Some(TokenKind::At),
        '$' => Some(TokenKind::Dollar),
        _ => None,
    }
}

/// Operators of two characters.
pub open spec fn double_punct(c: char, d: char) -> Option<TokenKind> {
    if c == ':' && d == '=' { Some(TokenKind::ColonEq) }
    else if c == '!' && d == '=' { Some(TokenKind::BangEq) }
    else if c == '=' && d == '=' { Some(TokenKind::EqEq) }
    else if c == '=' && d == '>' { Some(TokenKind::DArrow) }
    else if c == '<' && d == '=' { Some(TokenKind::Le) }
    else if c == '>' && d == '=' { Some(TokenKind::Ge) }
    else if c == '-' && d == '>' { Some(TokenKind::Arrow) }
    else if c == '@' && d == '@' { Some(TokenKind::AtAt) }
    else { None }
}

pub open spec fn punct_kind(s: Seq<char>) -> Option<TokenKind> {
    if s.len() == 1 {
        single_punct(s[0])
    } else if s.len() == 2 {
        double_punct(s[0], s[1])
    } else {
        None
    }
}

/// The escape characters that may follow a backslash in a string literal.
pub open spec fn is_escape_char(c: char) -> bool {
    c == 'n' || c == 't' || c == '\\' || c == '"'
}

pub open spec fn escape_value(c: char) -> char {
    if c == 'n' { '\n' } else if c == 't' { '\t' } else { c }
}

/// A well-formed string-literal body: no newline, no bare quote, and every
/// backslash starts a known escape.
pub open spec fn escapes_ok(b: Seq<char>) -> bool
    decreases b.len(),
{
    if b.len() == 0 {
        true
    } else if b[0] == '\\' {
        b.len() >= 2 && is_escape_char(b[1]) && escapes_ok(b.skip(2))
    } else if b[0] == '"' || b[0] == '\n' {
        false
    } else {
        escapes_ok(b.skip(1))
    }
}

/// The characters that a string-literal body stands for.
pub open spec fn unescape(b: Seq<char>) -> Seq<char>
    decreases b.len(),
{
    if b.len() == 0 {
        Seq::empty()
    } else if b[0] == '\\' && b.len() >= 2 {
        seq![escape_value(b[1])] + unescape(b.skip(2))
    } else {
        seq![b[0]] + unescape(b.skip(1))
    }
}

pub open spec fn is_string_lexeme(s: Seq<char>) -> bool {
    s.len() >= 2 && s[0] == '"' && s[s.len() - 1] == '"' && escapes_ok(s.subrange(1, s.len() - 1))
}

/// The kind of a token agrees with the text it covers.
pub open spec fn kind_matches(kind: TokenKind, lex: Seq<char>) -> bool {
    match kind {
        TokenKind::Number(n) => n@ == lex && is_number_lexeme(lex),
        TokenKind::StringLit(v) => is_string_lexeme(lex) && v@ == unescape(lex.subrange(1, lex.len() - 1)),
        TokenKind::Ident(n) => n@ == lex && is_ident_lexeme(lex) && keyword_kind(lex) is None,
        TokenKind::Eof => lex.len() == 0,
        _ => (is_ident_lexeme(lex) && keyword_kind(lex) == Some(kind)) || punct_kind(lex) == Some(kind),
    }
}

/// Characters that may begin a token.
pub open spec fn starts_token(c: char) -> bool {
    single_punct(c) is Some || c == '"' || is_digit(c) || is_ident_start(c)
}

// ── Skipping ────────────────────────────────────────────────────────────────

/// First index at or after `i` holding a newline, or the end.
pub open spec fn line_end(s: Seq<char>, i: int) -> int
    decreases s.len() - i,
{
    if i >= s.len() || s[i] == '\n' {
        i
    } else {
        line_end(s, i + 1)
    }
}

/// Index at which skipping whitespace and `//` comments from `i` stops.
pub open spec fn skip_from(s: Seq<char>, i: int) -> int
    decreases s.len() - i,
{
    if i < 0 || i >= s.len() {
        i
    } else if char_is_whitespace(s[i]) {
        skip_from(s, i + 1)
    } else if s[i] == '/' && i + 1 < s.len() && s[i + 1] == '/' {
        proof { lemma_line_end_bounds(s, i + 2); }
        skip_from(s, line_end(s, i + 2))
    } else {
        i
    }
}

pub proof fn lemma_line_end_bounds(s: Seq<char>, i: int)
    ensures
        i <= s.len() ==> i <= line_end(s, i) <= s.len(),
        i > s.len() ==> line_end(s, i) == i,
    decreases s.len() - i,
{
    if i < s.len() && s[i] != '\n' {
        lemma_line_end_bounds(s, i + 1);
    }
}

pub proof fn lemma_skip_bounds(s: Seq<char>, i: int)
    requires
        0 <= i <= s.len(),
    ensures
        i <= skip_from(s, i) <= s.len(),
    decreases s.len() - i,
{
    if i < s.len() {
        if char_is_whitespace(s[i]) {
            lemma_skip_bounds(s, i + 1);
        } else if s[i] == '/' && i + 1 < s.len() && s[i + 1] == '/' {
            lemma_line_end_bounds(s, i + 2);
            lemma_skip_bounds(s, line_end(s, i + 2));
        }
    }
}

// ── Errors ───────────────────────────────────────────────────────────────────

/// The body of the string literal opened at `a` reads well up to `k`, where
/// the source ends, a line ends, or a backslash is its last character.
pub open spec fn string_stops(s: Seq<char>, a: int, k: int) -> bool {
    &&& 0 <= a < k <= s.len()
    &&& escapes_ok(s.subrange(a + 1, k))
    &&& (k == s.len() || s[k] == '\n' || (s[k] == '\\' && k + 1 == s.len()))
}

/// The body of the string literal opened at `a` reads well up to the
/// backslash at `j - 1`, which is followed by `ch`.
pub open spec fn bad_escape_at(s: Seq<char>, a: int, j: int, ch: char) -> bool {
    &&& 0 <= a < j - 1
    &&& j < s.len()
    &&& escapes_ok(s.subrange(a + 1, j - 1))
    &&& s[j - 1] == '\\'
    &&& s[j] == ch
}

/// What a scanning error at token start `a` means.
pub open spec fn error_at(s: Seq<char>, a: int, e: LexError) -> bool {
    &&& 0 <= a < s.len()
    &&& match e {
        LexError::UnexpectedChar { ch, line, col } => {
            &&& ch == s[a]
            &&& !starts_token(ch)
            &&& (line as int, col as int) == line_col(s, a)
        },
        LexError::UnterminatedString { line, col } => {
            &&& s[a] == '"'
            &&& exists|k: int| #[trigger] string_stops(s, a, k)
            &&& (line as int, col as int) == line_col(s, a)
        },
        LexError::UnknownEscape { ch, line, col } => {
            &&& s[a] == '"'
            &&& !is_escape_char(ch)
            &&& exists|j: int| #[trigger] bad_escape_at(s, a, j, ch) && (line as int, col as int) == line_col(s, j + 1)
        },
        LexError::InvalidNumber { .. } => false,
    }
}

/// A token scanned from `s`, covering `s[a..b]`.
pub open spec fn token_at(s: Seq<char>, tok: Token, a: int, b: int) -> bool {
    &&& 0 <= a <= b <= s.len()
    &&& tok.lexeme@ == s.subrange(a, b)
    &&& tok.span.start == byte_off(s, a)
    &&& tok.span.end == byte_off(s, b)
    &&& (tok.span.line as int, tok.span.col as int) == line_col(s, a)
    &&& kind_matches(tok.kind, tok.lexeme@)
}

/// One scanning step from index `i0` to index `i1`.
pub open spec fn step_ok(s: Seq<char>, i0: int, i1: int, r: Result<Token, LexError>) -> bool {
    let a = skip_from(s, i0);
    match r {
        Ok(tok) => {
            &&& token_at(s, tok, a, i1)
            &&& (tok.kind is Eof <==> a == s.len())
            &&& (a < s.len() ==> a < i1)
            &&& (is_ident_lexeme(tok.lexeme@) && i1 < s.len() ==> !is_ident_char(s[i1]))
            &&& (tok.kind is Number && i1 < s.len() ==> !is_digit(s[i1]))
            &&& (tok.kind is Number && is_digits(tok.lexeme@) && i1 < s.len() ==> !(s[i1] == '.' && i1 + 1 < s.len() && is_digit(s[i1 + 1])))
            &&& (tok.lexeme@.len() == 1 && single_punct(tok.lexeme@[0]) is Some && i1 < s.len() ==> double_punct(
                tok.lexeme@[0],
                s[i1],
            ) is None)
        },
        Err(e) => error_at(s, a, e),
    }
}

// ── The scanner ──────────────────────────────────────────────────────────────

pub struct Lexer {
    chars: Vec<char>,
    offs: Vec<usize>,
    idx: usize,
    line: u32,
    col: u32,
}

/// The `keyword_kind` of a lexeme.
fn keyword(s: &String) -> (r: Option<TokenKind>)
    ensures
        r == keyword_kind(s@),
{
    if str_is(s, "let") { Some(TokenKind::Let) }
    else if str_is(s, "in") { Some(TokenKind::In) }
    else if str_is(s, "if") { Some(TokenKind::If) }
    else if str_is(s, "elif") { Some(TokenKind::Elif) }
    else if str_is(s, "else") { Some(TokenKind::Else) }
    else if str_is(s, "while") { Some(TokenKind::While) }
    else if str_is(s, "for") { Some(TokenKind::For) }
    else if str_is(s, "function") { Some(TokenKind::Function) }
    else if str_is(s, "class") { Some(TokenKind::Class) }
    else if str_is(s, "type") { Some(TokenKind::Type) }
    else if str_is(s, "is") { Some(TokenKind::Is) }
    else if str_is(s, "inherits") { Some(TokenKind::Inherits) }
    else if str_is(s, "new") { Some(TokenKind::New) }
    else if str_is(s, "self") { Some(TokenKind::Self_) }
    else if str_is(s, "case") { Some(TokenKind::Case) }
    else if str_is(s, "of") { Some(TokenKind::Of) }
    else if str_is(s, "with") { Some(TokenKind::With) }
    else if str_is(s, "as") { Some(TokenKind::As) }
    else if str_is(s, "null") { Some(TokenKind::Null) }
    else if str_is(s, "true") { Some(TokenKind::True) }
    else if str_is(s, "false") { Some(TokenKind::False) }
    else if str_is(s, "protocol") { Some(TokenKind::Protocol) }
    else if str_is(s, "def") { Some(TokenKind::Def) }
    else if str_is(s, "default") { Some(TokenKind::Default) }
    else { None }
}

impl Lexer {
    /// The source characters.
    pub closed spec fn source(&self) -> Seq<char> {
        self.chars@
    }

    /// Index of the next character to examine.
    pub closed spec fn index(&self) -> int {
        self.idx as int
    }

    pub closed spec fn wf(&self) -> bool {
        &&& self.offs@.len() == self.chars@.len() + 1
        &&& forall|i: int| 0 <= i <= self.chars@.len() ==> #[trigger] self.offs@[i] == byte_off(self.chars@, i)
        &&& self.idx <= self.chars@.len()
        &&& self.chars@.len() < u32::MAX
        &&& self.line as int == line_col(self.chars@, self.idx as int).0
        &&& self.col as int == line_col(self.chars@, self.idx as int).1
    }

    /// A scanner positioned at the start of `src`.
    pub fn new(src: &str) -> (l: Self)
        requires
            src@.len() < u32::MAX,
            src.spec_bytes().len() <= usize::MAX,
        ensures
            l.wf(),
            l.source() == src@,
            l.index() == 0,
    {
        let chars = collect_chars(src);
        let n = chars.len();
        let mut offs: Vec<usize> = Vec::new();
        offs.push(0);
        let mut total: usize = 0;
        let mut i: usize = 0;
        proof {
            assert(chars@.take(0) =~= Seq::<char>::empty());
            assert(encode_utf8(Seq::<char>::empty()) =~= Seq::<u8>::empty());
            assert(chars@.take(n as int) =~= chars@);
        }
        while i < n
            invariant
                n == chars@.len(),
                chars@ == src@,
                i <= n,
                src.spec_bytes().len() <= usize::MAX,
                offs@.len() == i + 1,
                total == byte_off(chars@, i as int),
                forall|k: int| 0 <= k <= i ==> #[trigger] offs@[k] == byte_off(chars@, k),
            decreases n - i,
        {
            proof {
                lemma_byte_off_step(chars@, i as int);
                lemma_byte_off_mono(chars@, i as int + 1, n as int);
                assert(chars@.take(n as int) =~= chars@);
            }
            let c = chars[i];
            let u = c as u32;
            let w: usize = if u < 0x80 { 1 } else if u < 0x800 { 2 } else if u < 0x10000 { 3 } else { 4 };
            total = total + w;
            offs.push(total);
            i = i + 1;
        }
        Lexer { chars, offs, idx: 0, line: 1, col: 1 }
    }

    fn peek(&self) -> (r: Option<char>)
        requires
            self.wf(),
        ensures
            self.idx < self.chars@.len() ==> r == Some(self.chars@[self.idx as int]),
            self.idx >= self.chars@.len() ==> r is None,
    {
        if self.idx < self.chars.len() {
            Some(self.chars[self.idx])
        } else {
            None
        }
    }

    /// The character `k` places after the next one, if any.
    fn peek_at(&self, k: usize) -> (r: Option<char>)
        requires
            self.wf(),
        ensures
            self.idx + k < self.chars@.len() ==> r == Some(self.chars@[self.idx + k]),
            self.idx + k >= self.chars@.len() ==> r is None,
    {
        if k < self.chars.len() - self.idx {
            Some(self.chars[self.idx + k])
        } else {
            None
        }
    }

    /// Byte offset of the next character (the source length at the end).
    fn peek_offset(&self) -> (r: usize)
        requires
            self.wf(),
        ensures
            r == byte_off(self.chars@, self.idx as int),
    {
        self.offs[self.idx]
    }

    fn advance(&mut self) -> (r: Option<char>)
        requires
            old(self).wf(),
        ensures
            final(self).wf(),
            final(self).chars@ == old(self).chars@,
            old(self).idx < old(self).chars@.len() ==> r == Some(old(self).chars@[old(self).idx as int])
                && final(self).idx == old(self).idx + 1,
            old(self).idx >= old(self).chars@.len() ==> r is None && final(self).idx == old(self).idx,
    {
        if self.idx >= self.chars.len() {
            return None;
        }
        let ch = self.chars[self.idx];
        proof {
            lemma_line_col_bound(self.chars@, self.idx as int);
        }
        self.idx = self.idx + 1;
        if ch == '\n' {
            self.line = self.line + 1;
            self.col = 1;
        } else {
            self.col = self.col + 1;
        }
        Some(ch)
    }

    fn matches(&mut self, expected: char) -> (r: bool)
        requires
            old(self).wf(),
        ensures
            final(self).wf(),
            final(self).chars@ == old(self).chars@,
            r == (old(self).idx < old(self).chars@.len() && old(self).chars@[old(self).idx as int] == expected),
            r ==> final(self).idx == old(self).idx + 1,
            !r ==> final(self).idx == old(self).idx,
    {
        if self.idx < self.chars.len() && self.chars[self.idx] == expected {
            self.advance();
            true
        } else {
            false
        }
    }
}


proof fn lemma_escapes_concat(x: Seq<char>, y: Seq<char>)
    requires
        escapes_ok(x),
    ensures
        escapes_ok(x + y) == escapes_ok(y),
        unescape(x + y) == unescape(x) + unescape(y),
    decreases x.len(),
{
    if x.len() == 0 {
        assert(x + y =~= y);
        assert(unescape(x) =~= Seq::<char>::empty());
        assert(unescape(x) + unescape(y) =~= unescape(y));
    } else if x[0] == '\\' {
        lemma_escapes_concat(x.skip(2), y);
        assert((x + y).skip(2) =~= x.skip(2) + y);
        assert((x + y)[0] == '\\');
        assert((x + y)[1] == x[1]);
        assert(unescape(x + y) =~= seq![escape_value(x[1])] + unescape(x.skip(2) + y));
        assert(unescape(x) =~= seq![escape_value(x[1])] + unescape(x.skip(2)));
        assert(seq![escape_value(x[1])] + unescape(x.skip(2)) + unescape(y) =~= seq![escape_value(x[1])]
            + (unescape(x.skip(2)) + unescape(y)));
    } else {
        lemma_escapes_concat(x.skip(1), y);
        assert((x + y).skip(1) =~= x.skip(1) + y);
        assert((x + y)[0] == x[0]);
        assert(unescape(x + y) =~= seq![x[0]] + unescape(x.skip(1) + y));
        assert(unescape(x) =~= seq![x[0]] + unescape(x.skip(1)));
        assert(seq![x[0]] + unescape(x.skip(1)) + unescape(y) =~= seq![x[0]] + (unescape(x.skip(1))
            + unescape(y)));
    }
}

proof fn lemma_plain_char(c: char)
    requires
        c != '\\',
        c != '"',
        c != '\n',
    ensures
        escapes_ok(seq![c]),
        unescape(seq![c]) == seq![c],
{
    assert(seq![c].skip(1) =~= Seq::<char>::empty());
    assert(escapes_ok(Seq::<char>::empty()));
    assert(seq![c][0] == c);
    assert(escapes_ok(seq![c]));
    assert(unescape(Seq::<char>::empty()) =~= Seq::<char>::empty());
    assert(seq![c] + Seq::<char>::empty() =~= seq![c]);
}

proof fn lemma_escape_pair(c: char)
    requires
        is_escape_char(c),
    ensures
        escapes_ok(seq!['\\', c]),
        unescape(seq!['\\', c]) == seq![escape_value(c)],
{
    assert(seq!['\\', c].skip(2) =~= Seq::<char>::empty());
    assert(escapes_ok(Seq::<char>::empty()));
    assert(seq!['\\', c][0] == '\\' && seq!['\\', c][1] == c);
    assert(escapes_ok(seq!['\\', c]));
    assert(unescape(Seq::<char>::empty()) =~= Seq::<char>::empty());
    assert(seq![escape_value(c)] + Seq::<char>::empty() =~= seq![escape_value(c)]);
}

fn single_kind(c: char) -> (r: Option<TokenKind>)
    ensures
        r == single_punct(c),
{
    match c {
        '(' => Some(TokenKind::LParen),
        ')' => Some(TokenKind::RParen),
        '{' => Some(TokenKind::LBrace),
        '}' => Some(TokenKind::RBrace),
        '[' => Some(TokenKind::LBracket),
        ']' => Some(TokenKind::RBracket),
        ',' => Some(TokenKind::Comma),
        ';' => Some(TokenKind::Semicolon),
        '.' => Some(TokenKind::Dot),
        '%' => Some(TokenKind::Percent),
        '^' => Some(TokenKind::Caret),
        '&' => Some(TokenKind::Amp),
        '|' => Some(TokenKind::Pipe),
        ':' => Some(TokenKind::Colon),
        '!' => Some(TokenKind::Bang),
        '=' => Some(TokenKind::Eq),
        '<' => Some(TokenKind::Lt),
        '>' => Some(TokenKind::Gt),
        '-' => Some(TokenKind::Minus),
        '+' => Some(TokenKind::Plus),
        '*' => Some(TokenKind::Star),
        '/' => Some(TokenKind::Slash),
        '@' => Some(TokenKind::At),
        '$' => Some(TokenKind::Dollar),
        _ => None,
    }
}

fn double_kind(c: char, d: char) -> (r: Option<TokenKind>)
    ensures
        r == double_punct(c, d),
{
    if c == ':' && d == '=' { Some(TokenKind::ColonEq) }
    else if c == '!' && d == '=' { Some(TokenKind::BangEq) }
    else if c == '=' && d == '=' { Some(TokenKind::EqEq) }
    else if c == '=' && d == '>' { Some(TokenKind::DArrow) }
    else if c == '<' && d == '=' { Some(TokenKind::Le) }
    else if c == '>' && d == '=' { Some(TokenKind::Ge) }
    else if c == '-' && d == '>' { Some(TokenKind::Arrow) }
    else if c == '@' && d == '@' { Some(TokenKind::AtAt) }
    else { None }
}

/// `tok` covers some stretch of `s`.
pub open spec fn scanned(s: Seq<char>, tok: Token) -> bool {
    exists|a: int, b: int| token_at(s, tok, a, b)
}

pub proof fn lemma_number_starts_with_digit(s: Seq<char>)
    requires
        is_number_lexeme(s),
    ensures
        is_digit(s[0]),
{
    if !is_digits(s) {
        let k = choose|k: int| 0 < k < s.len() - 1 && #[trigger] s[k] == '.' && is_digits(s.take(k)) && is_digits(s.skip(k + 1));
        assert(s.take(k)[0] == s[0]);
    }
}

/// Where the steps that read `ends.len()` tokens stopped.
pub open spec fn last_end(ends: Seq<int>) -> int {
    if ends.len() == 0 { 0 } else { ends.last() }
}

/// `toks` are the tokens that scanning steps read one after the other from
/// the start of `s`, the `k`-th ending at index `ends[k]`.
pub open spec fn lexed(s: Seq<char>, toks: Seq<Token>, ends: Seq<int>) -> bool {
    &&& ends.len() == toks.len()
    &&& forall|k: int|
        0 <= k < toks.len() ==> step_ok(s, last_end(ends.take(k)), ends[k], Ok::<Token, LexError>(#[trigger] toks[k]))
}

/// The tokens of a whole source, as `tokenize` returns them.
pub open spec fn tokens_ok(s: Seq<char>, toks: Seq<Token>) -> bool {
    &&& exists|ends: Seq<int>| lexed(s, toks, ends)
    &&& toks.len() >= 1
    &&& toks[toks.len() - 1].kind is Eof
    &&& forall|k: int| 0 <= k < toks.len() - 1 ==> !(#[trigger] toks[k].kind is Eof)
    &&& forall|k: int| 0 <= k < toks.len() ==> scanned(s, #[trigger] toks[k])
    &&& forall|k: int| 0 <= k < toks.len() - 1 ==> #[trigger] toks[k].span.end <= toks[k + 1].span.start
}

impl Lexer {
    fn skip_whitespace_and_comments(&mut self)
        requires
            old(self).wf(),
        ensures
            final(self).wf(),
            final(self).chars@ == old(self).chars@,
            final(self).idx as int == skip_from(old(self).chars@, old(self).idx as int),
    {
        let ghost s = self.chars@;
        let ghost i0 = self.idx as int;
        loop
            invariant
                self.wf(),
                self.chars@ == s,
                skip_from(s, self.idx as int) == skip_from(s, i0),
            ensures
                self.wf(),
                self.chars@ == s,
                self.idx as int == skip_from(s, i0),
            decreases s.len() - self.idx,
        {
            match self.peek() {
                Some(c) => {
                    if is_whitespace(c) {
                        self.advance();
                    } else if c == '/' && self.peek_at(1) == Some('/') {
                        let ghost target = line_end(s, self.idx + 2);
                        proof {
                            lemma_line_end_bounds(s, self.idx + 2);
                            assert(line_end(s, self.idx as int) == line_end(s, self.idx + 1));
                            assert(line_end(s, self.idx + 1) == target);
                        }
                        while self.peek_at(0) != Some('\n') && self.idx < self.chars.len()
                            invariant
                                self.wf(),
                                self.chars@ == s,
                                line_end(s, self.idx as int) == target,
                            decreases s.len() - self.idx,
                        {
                            self.advance();
                        }
                        proof {
                            lemma_line_end_bounds(s, self.idx as int);
                        }
                    } else {
                        break;
                    }
                },
                None => {
                    break;
                },
            }
        }
    }

    fn read_number(&mut self, a: usize, start: usize, line: u32, col: u32) -> (tok: Token)
        requires
            old(self).wf(),
            old(self).idx == a + 1,
            a < old(self).chars@.len(),
            is_digit(old(self).chars@[a as int]),
            start == byte_off(old(self).chars@, a as int),
            (line as int, col as int) == line_col(old(self).chars@, a as int),
        ensures
            final(self).wf(),
            final(self).chars@ == old(self).chars@,
            token_at(old(self).chars@, tok, a as int, final(self).idx as int),
            tok.kind is Number,
            a < final(self).idx,
            ({
                let s = old(self).chars@;
                let i1 = final(self).idx as int;
                &&& (i1 < s.len() ==> !is_digit(s[i1]))
                &&& (is_digits(tok.lexeme@) && i1 < s.len() ==> !(s[i1] == '.' && i1 + 1 < s.len() && is_digit(s[i1 + 1])))
            }),
    {
        let ghost s = self.chars@;
        while self.idx < self.chars.len() && is_ascii_digit(self.chars[self.idx])
            invariant
                self.wf(),
                self.chars@ == s,
                a < self.idx <= s.len(),
                forall|j: int| a <= j < self.idx ==> is_digit(#[trigger] s[j]),
            decreases s.len() - self.idx,
        {
            self.advance();
        }
        let int_end = self.idx;
        let mut frac = false;
        if self.peek_at(0) == Some('.') {
            let after = self.peek_at(1);
            let digit_after = match after {
                Some(d) => is_ascii_digit(d),
                None => false,
            };
            if digit_after {
                self.advance();
                frac = true;
                while self.idx < self.chars.len() && is_ascii_digit(self.chars[self.idx])
                    invariant
                        self.wf(),
                        self.chars@ == s,
                        int_end + 1 <= self.idx <= s.len(),
                        int_end + 1 < s.len(),
                        is_digit(s[int_end + 1]),
                        s[int_end as int] == '.',
                        forall|j: int| a <= j < int_end ==> is_digit(#[trigger] s[j]),
                        forall|j: int| int_end < j < self.idx ==> is_digit(#[trigger] s[j]),
                    decreases s.len() - self.idx,
                {
                    self.advance();
                }
            }
        }
        assert(frac ==> int_end + 1 < self.idx);
        let end = self.peek_offset();
        let lexeme = string_of(&self.chars, a, self.idx);
        let text = lexeme.clone();
        proof {
            let lex = s.subrange(a as int, self.idx as int);
            if frac {
                let k = int_end - a;
                assert(lex[k] == '.');
                assert(lex.take(k) =~= s.subrange(a as int, int_end as int));
                assert(lex.skip(k + 1) =~= s.subrange(int_end + 1, self.idx as int));
                assert(is_digits(lex.take(k)));
                assert(is_digits(lex.skip(k + 1)));
                assert(!is_digits(lex));
            } else {
                assert(is_digits(lex));
            }
        }
        Token::new(TokenKind::Number(text), Span::new(start, end, line, col), lexeme)
    }

    fn read_string(&mut self, a: usize, start: usize, line: u32, col: u32) -> (r: Result<Token, LexError>)
        requires
            old(self).wf(),
            old(self).idx == a + 1,
            a < old(self).chars@.len(),
            old(self).chars@[a as int] == '"',
            start == byte_off(old(self).chars@, a as int),
            (line as int, col as int) == line_col(old(self).chars@, a as int),
        ensures
            final(self).wf(),
            final(self).chars@ == old(self).chars@,
            a < final(self).idx,
            match r {
                Ok(tok) => token_at(old(self).chars@, tok, a as int, final(self).idx as int) && tok.kind is StringLit,
                Err(e) => error_at(old(self).chars@, a as int, e) && !(e is UnexpectedChar),
            },
    {
        let ghost s = self.chars@;
        let mut value = String::new();
        proof {
            assert(s.subrange(a + 1, a + 1) =~= Seq::<char>::empty());
            assert(unescape(Seq::<char>::empty()) =~= Seq::<char>::empty());
        }
        loop
            invariant_except_break
                escapes_ok(s.subrange(a + 1, self.idx as int)),
                value@ == unescape(s.subrange(a + 1, self.idx as int)),
            invariant
                self.wf(),
                self.chars@ == s,
                old(self).chars@ == s,
                a < self.idx <= s.len(),
                s[a as int] == '"',
                (line as int, col as int) == line_col(s, a as int),
            ensures
                self.wf(),
                self.chars@ == s,
                a + 1 < self.idx <= s.len(),
                s[self.idx - 1] == '"',
                escapes_ok(s.subrange(a + 1, self.idx - 1)),
                value@ == unescape(s.subrange(a + 1, self.idx - 1)),
            decreases s.len() - self.idx,
        {
            let ghost i = self.idx as int;
            let ghost body = s.subrange(a + 1, i);
            match self.advance() {
                None => {
                    assert(string_stops(s, a as int, i));
                    return Err(LexError::UnterminatedString { line, col });
                },
                Some(c) => {
                    if c == '\n' {
                        assert(string_stops(s, a as int, i));
                        return Err(LexError::UnterminatedString { line, col });
                    } else if c == '"' {
                        assert(s.subrange(a + 1, self.idx - 1) == body);
                        break;
                    } else if c == '\\' {
                        match self.advance() {
                            None => {
                                assert(string_stops(s, a as int, i));
                                return Err(LexError::UnterminatedString { line, col });
                            },
                            Some(e) => {
                                if e == 'n' || e == 't' || e == '\\' || e == '"' {
                                    let v = if e == 'n' { '\n' } else if e == 't' { '\t' } else { e };
                                    push_char(&mut value, v);
                                    proof {
                                        lemma_escape_pair(e);
                                        assert(s.subrange(a + 1, self.idx as int) =~= body + seq!['\\', e]);
                                        lemma_escapes_concat(body, seq!['\\', e]);
                                    }
                                } else {
                                    let ghost j = self.idx - 1;
                                    assert(s[j - 1] == '\\' && s[j] == e);
                                    assert(bad_escape_at(s, a as int, j, e));
                                    let err = LexError::UnknownEscape { ch: e, line: self.line, col: self.col };
                                    assert((self.line as int, self.col as int) == line_col(s, j + 1));
                                    assert(error_at(s, a as int, err));
                                    return Err(err);
                                }
                            },
                        }
                    } else {
                        push_char(&mut value, c);
                        proof {
                            lemma_plain_char(c);
                            assert(s.subrange(a + 1, self.idx as int) =~= body + seq![c]);
                            lemma_escapes_concat(body, seq![c]);
                        }
                    }
                },
            }
        }
        let end = self.peek_offset();
        let lexeme = string_of(&self.chars, a, self.idx);
        proof {
            let lex = s.subrange(a as int, self.idx as int);
            assert(lex.subrange(1, lex.len() - 1) =~= s.subrange(a + 1, self.idx - 1));
        }
        Ok(Token::new(TokenKind::StringLit(value), Span::new(start, end, line, col), lexeme))
    }

    fn read_ident(&mut self, a: usize, start: usize, line: u32, col: u32) -> (tok: Token)
        requires
            old(self).wf(),
            old(self).idx == a + 1,
            a < old(self).chars@.len(),
            is_ident_start(old(self).chars@[a as int]),
            !is_digit(old(self).chars@[a as int]),
            single_punct(old(self).chars@[a as int]) is None,
            old(self).chars@[a as int] != '"',
            start == byte_off(old(self).chars@, a as int),
            (line as int, col as int) == line_col(old(self).chars@, a as int),
        ensures
            final(self).wf(),
            final(self).chars@ == old(self).chars@,
            token_at(old(self).chars@, tok, a as int, final(self).idx as int),
            is_ident_lexeme(tok.lexeme@),
            a < final(self).idx,
            final(self).idx < old(self).chars@.len() ==> !is_ident_char(old(self).chars@[final(self).idx as int]),
    {
        let ghost s = self.chars@;
        loop
            invariant
                self.wf(),
                self.chars@ == s,
                a < self.idx <= s.len(),
                forall|j: int| a < j < self.idx ==> is_ident_char(#[trigger] s[j]),
            ensures
                self.wf(),
                self.chars@ == s,
                a < self.idx <= s.len(),
                forall|j: int| a < j < self.idx ==> is_ident_char(#[trigger] s[j]),
                self.idx < s.len() ==> !is_ident_char(s[self.idx as int]),
            decreases s.len() - self.idx,
        {
            match self.peek() {
                Some(c) => {
                    if is_alphanumeric(c) || c == '_' {
                        self.advance();
                    } else {
                        break;
                    }
                },
                None => {
                    break;
                },
            }
        }
        let end = self.peek_offset();
        let lexeme = string_of(&self.chars, a, self.idx);
        let kind = match keyword(&lexeme) {
            Some(k) => k,
            None => TokenKind::Ident(lexeme.clone()),
        };
        proof {
            let lex = s.subrange(a as int, self.idx as int);
            assert forall|i: int| 1 <= i < lex.len() implies is_ident_char(#[trigger] lex[i]) by {
                assert(lex[i] == s[a + i]);
            }
        }
        Token::new(kind, Span::new(start, end, line, col), lexeme)
    }

    /// Scans the next token, after skipping whitespace and line comments.
    pub fn next_token(&mut self) -> (r: Result<Token, LexError>)
        requires
            old(self).wf(),
        ensures
            final(self).wf(),
            final(self).source() == old(self).source(),
            old(self).index() <= final(self).index(),
            step_ok(old(self).source(), old(self).index(), final(self).index(), r),
    {
        let ghost s = self.chars@;
        let ghost i0 = self.idx as int;
        proof {
            lemma_skip_bounds(s, i0);
        }
        self.skip_whitespace_and_comments();
        let a = self.idx;
        let line = self.line;
        let col = self.col;
        let start = self.peek_offset();
        let ch = match self.advance() {
            None => {
                let lexeme = string_of(&self.chars, a, a);
                return Ok(Token::new(TokenKind::Eof, Span::new(start, start, line, col), lexeme));
            },
            Some(c) => c,
        };
        if let Some(k1) = single_kind(ch) {
            let mut kind = k1;
            if let Some(d) = self.peek() {
                if let Some(k2) = double_kind(ch, d) {
                    self.advance();
                    kind = k2;
                }
            }
            let end = self.peek_offset();
            let lexeme = string_of(&self.chars, a, self.idx);
            proof {
                let lex = s.subrange(a as int, self.idx as int);
                assert(lex.len() == 1 ==> lex[0] == ch);
                assert(lex.len() == 2 ==> lex[0] == ch && lex[1] == s[a + 1]);
                assert(!is_ident_lexeme(lex));
                assert(punct_kind(lex) == Some(kind));
            }
            return Ok(Token::new(kind, Span::new(start, end, line, col), lexeme));
        }
        if ch == '"' {
            return self.read_string(a, start, line, col);
        }
        if is_ascii_digit(ch) {
            let tok = self.read_number(a, start, line, col);
            proof {
                let lex = tok.lexeme@;
                assert(lex[0] == ch);
                assert(!is_ident_lexeme(lex));
            }
            return Ok(tok);
        }
        if is_alphabetic(ch) || ch == '_' {
            let tok = self.read_ident(a, start, line, col);
            proof {
                assert(tok.lexeme@.len() > 0);
                if tok.kind is Number {
                    lemma_number_starts_with_digit(tok.lexeme@);
                }
            }
            return Ok(tok);
        }
        Err(LexError::UnexpectedChar { ch, line, col })
    }

    /// Scans the whole source. Stops at the end (the `Eof` token is kept)
    /// or at the first error.
    pub fn tokenize(self) -> (r: Result<Vec<Token>, LexError>)
        requires
            self.wf(),
            self.index() == 0,
        ensures
            match r {
                Ok(toks) => tokens_ok(self.source(), toks@),
                Err(e) => {
                    &&& exists|a: int| error_at(self.source(), a, e)
                    &&& exists|toks: Seq<Token>, ends: Seq<int>|
                        #[trigger] lexed(self.source(), toks, ends) && error_at(
                            self.source(),
                            skip_from(self.source(), last_end(ends)),
                            e,
                        )
                },
            },
    {
        let ghost s = self.chars@;
        let mut lx = self;
        let mut tokens: Vec<Token> = Vec::new();
        let ghost mut ends: Seq<int> = Seq::empty();
        loop
            invariant
                lexed(s, tokens@, ends),
                lx.idx == last_end(ends),
                lx.wf(),
                lx.chars@ == s,
                s == self.chars@,
                forall|k: int| 0 <= k < tokens.len() ==> !(#[trigger] tokens@[k].kind is Eof),
                forall|k: int| 0 <= k < tokens.len() ==> scanned(s, #[trigger] tokens@[k]),
                forall|k: int| 0 <= k < tokens.len() - 1 ==> #[trigger] tokens@[k].span.end <= tokens@[k + 1].span.start,
                tokens.len() > 0 ==> tokens@[tokens.len() - 1].span.end <= byte_off(s, lx.idx as int),
            decreases s.len() - lx.idx,
        {
            let ghost i0 = lx.idx as int;
            let r = lx.next_token();
            match r {
                Err(e) => {
                    assert(error_at(s, skip_from(s, i0), e));
                    assert(error_at(self.source(), skip_from(s, i0), e));
                    assert(error_at(self.source(), skip_from(self.source(), last_end(ends)), e));
                    return Err(e);
                },
                Ok(tok) => {
                    let ghost a = skip_from(s, i0);
                    let ghost i1 = lx.idx as int;
                    proof {
                        lemma_skip_bounds(s, i0);
                        lemma_byte_off_mono(s, i0, a);
                        lemma_byte_off_mono(s, a, i1);
                    }
                    let is_eof = match tok.kind {
                        TokenKind::Eof => true,
                        _ => false,
                    };
                    let ghost old_tokens = tokens@;
                    let ghost old_ends = ends;
                    tokens.push(tok);
                    proof {
                        ends = ends.push(i1);
                        assert forall|k: int| 0 <= k < tokens.len() implies step_ok(
                            s,
                            last_end(ends.take(k)),
                            ends[k],
                            Ok::<Token, LexError>(#[trigger] tokens@[k]),
                        ) by {
                            assert(ends.take(k) =~= old_ends.take(k));
                            if k < tokens.len() - 1 {
                                assert(tokens@[k] == old_tokens[k]);
                            } else {
                                assert(old_ends.take(k) =~= old_ends);
                            }
                        }
                        assert(tokens@[tokens.len() - 1] == tok);
                        assert forall|k: int| 0 <= k < tokens.len() implies scanned(s, #[trigger] tokens@[k]) by {
                            if k < tokens.len() - 1 {
                                assert(tokens@[k] == old_tokens[k]);
                            } else {
                                assert(token_at(s, tokens@[k], a, i1));
                            }
                        }
                        assert forall|k: int| 0 <= k < tokens.len() - 1 implies #[trigger] tokens@[k].span.end <= tokens@[k + 1].span.start by {
                            if k < tokens.len() - 2 {
                                assert(tokens@[k] == old_tokens[k]);
                                assert(tokens@[k + 1] == old_tokens[k + 1]);
                            } else {
                                assert(tokens@[k] == old_tokens[k]);
                            }
                        }
                    }
                    if is_eof {
                        assert(tokens@[tokens.len() - 1].kind is Eof);
                        assert(lexed(self.source(), tokens@, ends));
                        return Ok(tokens);
                    }
                },
            }
        }
    }
}

/// Scans the whole of `src`.
pub fn tokenize_source(src: &str) -> (r: Result<Vec<Token>, LexError>)
    requires
        src@.len() < u32::MAX,
        src.spec_bytes().len() <= usize::MAX,
    ensures
        match r {
            Ok(toks) => tokens_ok(src@, toks@),
            Err(e) => exists|toks: Seq<Token>, ends: Seq<int>|
                #[trigger] lexed(src@, toks, ends) && error_at(src@, skip_from(src@, last_end(ends)), e),
        },
{
    Lexer::new(src).tokenize()
}

} // verus!
