//! What the compiler driver decides: exit codes and diagnostics for a source
//! text, and the runnable script it writes for a valid program.
use vstd::prelude::*;
use vstd::string::*;
use crate::ast::Program;
use crate::parse::{compile, PipelineError, program_of, program_error, first_lex_error};
use crate::parse::program_grammar::program_view;
use crate::lexer::{LexError, Token};
use crate::lexer::scan::tokens_ok;
use crate::lexer::laws::{law_lex_error_determined, law_tokens_exclude_error};
use crate::sema::{checked, SemanticError};
use crate::sema::check;
use crate::text::{push_char, push_str, u32_to_string, decimal};

verus! {

/// The base64 digit for `i < 64`.
pub open spec fn b64_char(i: int) -> char {
    if i < 26 {
        (65 + i) as char
    } else if i < 52 {
        (97 + i - 26) as char
    } else if i < 62 {
        (48 + i - 52) as char
    } else if i == 62 {
        '+'
    } else {
        '/'
    }
}

/// Base64 of one group of one to three bytes, padded with `=` to four characters.
pub open spec fn b64_group(b: Seq<u8>) -> Seq<char> {
    let b0 = b[0] as int;
    let b1 = if b.len() > 1 { b[1] as int } else { 0 };
    let b2 = if b.len() > 2 { b[2] as int } else { 0 };
    let n = b0 * 65536 + b1 * 256 + b2;
    seq![
        b64_char(n / 262144 % 64),
        b64_char(n / 4096 % 64),
        if b.len() > 1 { b64_char(n / 64 % 64) } else { '=' },
        if b.len() > 2 { b64_char(n % 64) } else { '=' },
    ]
}

/// Standard base64, with padding.
pub open spec fn base64(data: Seq<u8>) -> Seq<char>
    decreases data.len(),
{
    if data.len() == 0 {
        Seq::empty()
    } else if data.len() <= 3 {
        b64_group(data)
    } else {
        b64_group(data.take(3)) + base64(data.skip(3))
    }
}

/// Base64 writes four characters for every three bytes or part of three.
pub proof fn law_base64_length(data: Seq<u8>)
    ensures
        base64(data).len() == 4 * ((data.len() + 2) / 3),
    decreases data.len(),
{
    if data.len() > 3 {
        law_base64_length(data.skip(3));
        assert(data.skip(3).len() == data.len() - 3);
    }
}

/// Base64 writes only its sixty-four digits and `=`: nothing that needs
/// escaping inside the script's single quotes.
pub proof fn law_base64_alphabet(data: Seq<u8>)
    ensures
        forall|i: int|
            0 <= i < base64(data).len() ==> #[trigger] is_b64_text_char(base64(data)[i]),
    decreases data.len(),
{
    if data.len() > 3 {
        law_base64_alphabet(data.skip(3));
        let g = b64_group(data.take(3));
        let r = base64(data.skip(3));
        assert forall|i: int| 0 <= i < base64(data).len() implies #[trigger] is_b64_text_char(base64(data)[i]) by {
            if i < 4 {
                assert(base64(data)[i] == g[i]);
            } else {
                assert(base64(data)[i] == r[i - 4]);
            }
        }
    }
}

/// The sixty-four digits of standard base64 (RFC 4648), in order of value.
pub open spec fn rfc4648_digits() -> Seq<char> {
    "ABCDEFGHIJKLMNOPQRSTUVWXYZabcdefghijklmnopqrstuvwxyz0123456789+/"@
}

/// Base64 writes the value `i` as the `i`-th digit of the RFC 4648 alphabet,
/// so that a standard decoder reads back what was written.
pub proof fn law_b64_digits_are_rfc4648(i: int)
    requires
        0 <= i < 64,
    ensures
        b64_char(i) == rfc4648_digits()[i],
{
    lemma_rfc4648_digits();
}

proof fn lemma_rfc4648_digits()
    ensures
        rfc4648_digits().len() == 64,
        forall|i: int| 0 <= i < 64 ==> #[trigger] rfc4648_digits()[i] == b64_char(i),
{
    reveal_strlit("ABCDEFGHIJKLMNOPQRSTUVWXYZabcdefghijklmnopqrstuvwxyz0123456789+/");
    assert forall|i: int| 0 <= i < 64 implies #[trigger] rfc4648_digits()[i] == b64_char(i) by {
        assert(b64_char(0) == rfc4648_digits()[0]);
        assert(b64_char(1) == rfc4648_digits()[1]);
        assert(b64_char(2) == rfc4648_digits()[2]);
        assert(b64_char(3) == rfc4648_digits()[3]);
        assert(b64_char(4) == rfc4648_digits()[4]);
        assert(b64_char(5) == rfc4648_digits()[5]);
        assert(b64_char(6) == rfc4648_digits()[6]);
        assert(b64_char(7) == rfc4648_digits()[7]);
        assert(b64_char(8) == rfc4648_digits()[8]);
        assert(b64_char(9) == rfc4648_digits()[9]);
        assert(b64_char(10) == rfc4648_digits()[10]);
        assert(b64_char(11) == rfc4648_digits()[11]);
        assert(b64_char(12) == rfc4648_digits()[12]);
        assert(b64_char(13) == rfc4648_digits()[13]);
        assert(b64_char(14) == rfc4648_digits()[14]);
        assert(b64_char(15) == rfc4648_digits()[15]);
        assert(b64_char(16) == rfc4648_digits()[16]);
        assert(b64_char(17) == rfc4648_digits()[17]);
        assert(b64_char(18) == rfc4648_digits()[18]);
        assert(b64_char(19) == rfc4648_digits()[19]);
        assert(b64_char(20) == rfc4648_digits()[20]);
        assert(b64_char(21) == rfc4648_digits()[21]);
        assert(b64_char(22) == rfc4648_digits()[22]);
        assert(b64_char(23) == rfc4648_digits()[23]);
        assert(b64_char(24) == rfc4648_digits()[24]);
        assert(b64_char(25) == rfc4648_digits()[25]);
        assert(b64_char(26) == rfc4648_digits()[26]);
        assert(b64_char(27) == rfc4648_digits()[27]);
        assert(b64_char(28) == rfc4648_digits()[28]);
        assert(b64_char(29) == rfc4648_digits()[29]);
        assert(b64_char(30) == rfc4648_digits()[30]);
        assert(b64_char(31) == rfc4648_digits()[31]);
        assert(b64_char(32) == rfc4648_digits()[32]);
        assert(b64_char(33) == rfc4648_digits()[33]);
        assert(b64_char(34) == rfc4648_digits()[34]);
        assert(b64_char(35) == rfc4648_digits()[35]);
        assert(b64_char(36) == rfc4648_digits()[36]);
        assert(b64_char(37) == rfc4648_digits()[37]);
        assert(b64_char(38) == rfc4648_digits()[38]);
        assert(b64_char(39) == rfc4648_digits()[39]);
        assert(b64_char(40) == rfc4648_digits()[40]);
        assert(b64_char(41) == rfc4648_digits()[41]);
        assert(b64_char(42) == rfc4648_digits()[42]);
        assert(b64_char(43) == rfc4648_digits()[43]);
        assert(b64_char(44) == rfc4648_digits()[44]);
        assert(b64_char(45) == rfc4648_digits()[45]);
        assert(b64_char(46) == rfc4648_digits()[46]);
        assert(b64_char(47) == rfc4648_digits()[47]);
        assert(b64_char(48) == rfc4648_digits()[48]);
        assert(b64_char(49) == rfc4648_digits()[49]);
        assert(b64_char(50) == rfc4648_digits()[50]);
        assert(b64_char(51) == rfc4648_digits()[51]);
        assert(b64_char(52) == rfc4648_digits()[52]);
        assert(b64_char(53) == rfc4648_digits()[53]);
        assert(b64_char(54) == rfc4648_digits()[54]);
        assert(b64_char(55) == rfc4648_digits()[55]);
        assert(b64_char(56) == rfc4648_digits()[56]);
        assert(b64_char(57) == rfc4648_digits()[57]);
        assert(b64_char(58) == rfc4648_digits()[58]);
        assert(b64_char(59) == rfc4648_digits()[59]);
        assert(b64_char(60) == rfc4648_digits()[60]);
        assert(b64_char(61) == rfc4648_digits()[61]);
        assert(b64_char(62) == rfc4648_digits()[62]);
        assert(b64_char(63) == rfc4648_digits()[63]);
    }
}

/// The value of a base64 digit: its place in the RFC 4648 alphabet.
pub open spec fn b64_value(c: char) -> int {
    choose|i: int| 0 <= i < 64 && rfc4648_digits()[i] == c
}

/// The bytes a group of four base64 characters stands for, as a standard
/// decoder reads them: `=` counts as zero and drops a byte from the end.
pub open spec fn decode_group(g: Seq<char>) -> Seq<u8> {
    let v0 = b64_value(g[0]);
    let v1 = b64_value(g[1]);
    let v2 = if g[2] == '=' { 0 } else { b64_value(g[2]) };
    let v3 = if g[3] == '=' { 0 } else { b64_value(g[3]) };
    let n = v0 * 262144 + v1 * 4096 + v2 * 64 + v3;
    let one = seq![(n / 65536) as u8];
    let two = if g[2] == '=' { one } else { one.push((n / 256 % 256) as u8) };
    if g[3] == '=' { two } else { two.push((n % 256) as u8) }
}

/// Standard base64 decoding, four characters at a time.
pub open spec fn base64_decode(s: Seq<char>) -> Seq<u8>
    decreases s.len(),
{
    if s.len() < 4 {
        Seq::empty()
    } else {
        decode_group(s.take(4)) + base64_decode(s.skip(4))
    }
}

proof fn lemma_b64_char_range(i: int)
    requires
        0 <= i < 64,
    ensures
        i < 26 ==> b64_char(i) as u32 == 65 + i,
        26 <= i < 52 ==> b64_char(i) as u32 == 97 + i - 26,
        52 <= i < 62 ==> b64_char(i) as u32 == 48 + i - 52,
        i == 62 ==> b64_char(i) as u32 == 43,
        i == 63 ==> b64_char(i) as u32 == 47,
{
    lemma_rfc4648_digits();
}

/// Decoding a digit gives back its value.
proof fn lemma_b64_value(k: int)
    requires
        0 <= k < 64,
    ensures
        b64_value(b64_char(k)) == k,
        b64_char(k) != '=',
{
    lemma_rfc4648_digits();
    lemma_b64_char_range(k);
    let i = b64_value(b64_char(k));
    assert(rfc4648_digits()[k] == b64_char(k));
    assert(0 <= i < 64 && rfc4648_digits()[i] == b64_char(k));
    lemma_b64_char_range(i);
    assert(b64_char(i) as u32 == b64_char(k) as u32);
}

proof fn lemma_group_bits(b0: u32, b1: u32, b2: u32)
    by (bit_vector)
    requires
        b0 < 256,
        b1 < 256,
        b2 < 256,
    ensures
        ((b0 * 65536 + b1 * 256 + b2) / 262144 % 64) * 262144 + ((b0 * 65536 + b1 * 256 + b2) / 4096 % 64) * 4096
            + ((b0 * 65536 + b1 * 256 + b2) / 64 % 64) * 64 + (b0 * 65536 + b1 * 256 + b2) % 64 == b0 * 65536 + b1
            * 256 + b2,
        (b0 * 65536 + b1 * 256 + b2) / 65536 == b0,
        (b0 * 65536 + b1 * 256 + b2) / 256 % 256 == b1,
        (b0 * 65536 + b1 * 256 + b2) % 256 == b2,
        b2 == 0 ==> (b0 * 65536 + b1 * 256 + b2) % 64 == 0,
        b1 == 0 && b2 == 0 ==> (b0 * 65536 + b1 * 256 + b2) / 64 % 64 == 0,
{
}

/// A group of one to three bytes decodes back to itself.
proof fn lemma_group_round_trip(b: Seq<u8>)
    requires
        1 <= b.len() <= 3,
    ensures
        decode_group(b64_group(b)) == b,
{
    let b0 = b[0] as u32;
    let b1: u32 = if b.len() > 1 { b[1] as u32 } else { 0 };
    let b2: u32 = if b.len() > 2 { b[2] as u32 } else { 0 };
    lemma_group_bits(b0, b1, b2);
    let n = b0 * 65536 + b1 * 256 + b2;
    let g = b64_group(b);
    lemma_b64_value(n / 262144 % 64);
    lemma_b64_value(n / 4096 % 64);
    lemma_b64_value(n / 64 % 64);
    lemma_b64_value(n % 64);
    assert(decode_group(g) =~= b);
}

/// Base64 loses nothing: a standard decoder reads back exactly the bytes
/// that were encoded.
pub proof fn law_base64_round_trip(data: Seq<u8>)
    ensures
        base64_decode(base64(data)) == data,
    decreases data.len(),
{
    if data.len() == 0 {
        assert(base64_decode(Seq::empty()) =~= Seq::<u8>::empty());
    } else if data.len() <= 3 {
        lemma_group_round_trip(data);
        let g = b64_group(data);
        assert(g.take(4) =~= g);
        assert(base64_decode(g.skip(4)) =~= Seq::<u8>::empty());
        assert(base64_decode(g) =~= decode_group(g) + Seq::<u8>::empty());
        assert(decode_group(g) + Seq::<u8>::empty() =~= data);
    } else {
        let g = b64_group(data.take(3));
        let r = base64(data.skip(3));
        law_base64_round_trip(data.skip(3));
        lemma_group_round_trip(data.take(3));
        assert((g + r).take(4) =~= g);
        assert((g + r).skip(4) =~= r);
        assert(data.take(3) + data.skip(3) =~= data);
    }
}

/// A character base64 may write: a digit or `=`.
pub open spec fn is_b64_text_char(c: char) -> bool {
    ('A' <= c && c <= 'Z') || ('a' <= c && c <= 'z') || ('0' <= c && c <= '9') || c == '+' || c == '/' || c == '='
}

fn b64_digit(i: u32) -> (c: char)
    requires
        i < 64,
    ensures
        c == b64_char(i as int),
{
    if i < 26 {
        ((65 + i) as u8) as char
    } else if i < 52 {
        ((97 + i - 26) as u8) as char
    } else if i < 62 {
        ((48 + i - 52) as u8) as char
    } else if i == 62 {
        '+'
    } else {
        '/'
    }
}

/// Encodes bytes in standard base64, with padding.
pub fn base64_encode(data: &[u8]) -> (out: String)
    ensures
        out@ == base64(data@),
{
    let mut out = String::new();
    let n = data.len();
    let mut i: usize = 0;
    proof {
        assert(data@.skip(0) =~= data@);
    }
    while i < n
        invariant
            i <= n,
            n == data@.len(),
            out@ + base64(data@.skip(i as int)) == base64(data@),
        decreases n - i,
    {
        let rest = n - i;
        let b0 = data[i] as u32;
        let b1: u32 = if rest > 1 { data[i + 1] as u32 } else { 0 };
        let b2: u32 = if rest > 2 { data[i + 2] as u32 } else { 0 };
        let v = b0 * 65536 + b1 * 256 + b2;
        let ghost before = out@;
        push_char(&mut out, b64_digit((v / 262144) % 64));
        push_char(&mut out, b64_digit((v / 4096) % 64));
        if rest > 1 {
            push_char(&mut out, b64_digit((v / 64) % 64));
        } else {
            push_char(&mut out, '=');
        }
        if rest > 2 {
            push_char(&mut out, b64_digit(v % 64));
        } else {
            push_char(&mut out, '=');
        }
        proof {
            let d = data@.skip(i as int);
            let g = if rest <= 3 { d } else { d.take(3) };
            assert(g.len() == if rest < 3 { rest as int } else { 3 });
            assert(g[0] == data@[i as int]);
            if rest > 1 {
                assert(g[1] == data@[i + 1]);
            }
            if rest > 2 {
                assert(g[2] == data@[i + 2]);
            }
            assert(out@ =~= before + b64_group(g));
            if rest > 3 {
                assert(d.skip(3) =~= data@.skip(i + 3));
                assert(base64(d) == b64_group(g) + base64(d.skip(3)));
                assert(before + base64(d) =~= (before + b64_group(g)) + base64(data@.skip(i + 3)));
            } else {
                assert(data@.skip(n as int) =~= Seq::<u8>::empty());
            }
        }
        if rest > 3 {
            i += 3;
        } else {
            i = n;
        }
    }
    proof {
        assert(data@.skip(n as int) =~= Seq::<u8>::empty());
        assert(out@ + Seq::<char>::empty() =~= out@);
    }
    out
}

/// The script that runs a program: it decodes the embedded source and feeds
/// it to the compiler beside it in interpreting mode.
pub open spec fn script_text(encoded: Seq<char>) -> Seq<char> {
    "#!/bin/sh\n_H=\"$(cd \"$(dirname \"$0\")\" && pwd)/hulk\"\n_T=$(mktemp)\nprintf '%s' '"@ + encoded
        + "' | base64 -d > \"$_T\"\n\"$_H\" --run-stdin < \"$_T\"\n_E=$?\nrm -f \"$_T\"\nexit $_E\n"@
}

/// The script for source text `src`.
pub fn output_script(src: &str) -> (s: String)
    ensures
        s@ == script_text(base64(src.spec_bytes())),
{
    let encoded = base64_encode(src.as_bytes());
    let mut s = "#!/bin/sh\n_H=\"$(cd \"$(dirname \"$0\")\" && pwd)/hulk\"\n_T=$(mktemp)\nprintf '%s' '".to_owned();
    push_str(&mut s, encoded.as_str());
    push_str(&mut s, "' | base64 -d > \"$_T\"\n\"$_H\" --run-stdin < \"$_T\"\n_E=$?\nrm -f \"$_T\"\nexit $_E\n");
    s
}

/// A diagnostic line: `(line,col) KIND: message`.
pub open spec fn diagnostic_text(pos: (u32, u32), kind: Seq<char>, msg: Seq<char>) -> Seq<char> {
    "("@ + decimal(pos.0 as nat) + ","@ + decimal(pos.1 as nat) + ") "@ + kind + ": "@ + msg
}

pub fn diagnostic(pos: (u32, u32), kind: &str, msg: &str) -> (s: String)
    ensures
        s@ == diagnostic_text(pos, kind@, msg@),
{
    let mut s = "(".to_owned();
    let l = u32_to_string(pos.0);
    push_str(&mut s, l.as_str());
    push_str(&mut s, ",");
    let c = u32_to_string(pos.1);
    push_str(&mut s, c.as_str());
    push_str(&mut s, ") ");
    push_str(&mut s, kind);
    push_str(&mut s, ": ");
    push_str(&mut s, msg);
    s
}

/// The exit code and diagnostics for a source text, and its program when it is valid.
pub struct Outcome {
    /// 0: valid; 1: lexical error; 2: syntactic error; 3: semantic errors.
    pub code: i32,
    pub diagnostics: Vec<String>,
    pub program: Option<Program>,
}

/// The diagnostic line of a semantic error.
pub open spec fn semantic_line(e: SemanticError) -> Seq<char> {
    diagnostic_text((e.span_of().line, e.span_of().col), "SEMANTIC"@, e.spec_clean_message())
}

/// `ds` are the diagnostic lines of `errs`, in order.
pub open spec fn semantic_lines(ds: Seq<String>, errs: Seq<SemanticError>) -> bool {
    &&& ds.len() == errs.len()
    &&& forall|k: int| 0 <= k < ds.len() ==> #[trigger] ds[k]@ == semantic_line(errs[k])
}

/// What the front end reports on `src`: the first lexical or syntactic
/// error stops it with code 1 or 2 and one diagnostic; otherwise every
/// semantic error is reported, code 3; a program without errors gives code 0
/// and the program.
pub open spec fn reports(src: Seq<char>, o: Outcome) -> bool {
    &&& 0 <= o.code <= 3
    &&& o.code == 0 <==> o.program is Some
    &&& o.code == 0 ==> o.diagnostics@.len() == 0
    &&& o.code == 1 ==> o.diagnostics@.len() == 1 && exists|toks: Seq<Token>, ends: Seq<int>, e: LexError|
        #[trigger] first_lex_error(src, toks, ends, e) && o.diagnostics@[0]@ == diagnostic_text(
            e.spec_position(),
            "LEXICAL"@,
            e.spec_clean_message(),
        )
    &&& o.code == 2 ==> o.diagnostics@.len() == 1 && exists|e: crate::parse::ParseError, toks: Seq<Token>|
        #[trigger] program_error(src, toks, e@) && o.diagnostics@[0]@ == diagnostic_text(
            e.spec_position(),
            "SYNTACTIC"@,
            e.spec_clean_message(),
        )
    &&& o.code == 0 ==> checked(o.program->Some_0, Seq::empty()) && exists|toks: Seq<Token>|
        #[trigger] program_of(src, toks, program_view(o.program->Some_0))
    &&& o.code == 3 ==> exists|p: Program, errs: Seq<SemanticError>|
        #[trigger] checked(p, errs) && errs.len() >= 1 && semantic_lines(o.diagnostics@, errs) && exists|
            toks: Seq<Token>,
        | #[trigger] program_of(src, toks, program_view(p))
}

/// Exit code 1 is given exactly to the sources that fail to scan, and always
/// with the same diagnostic: whatever two reports on one source say, both
/// give code 1 or neither does, and where both do their diagnostic is one.
pub proof fn law_lexical_code(src: Seq<char>, o1: Outcome, o2: Outcome)
    requires
        reports(src, o1),
        reports(src, o2),
    ensures
        (o1.code == 1) == (o2.code == 1),
        o1.code == 1 ==> o1.diagnostics@[0]@ == o2.diagnostics@[0]@,
{
    if o1.code == 1 {
        lemma_lexical_code_one(src, o1, o2);
    } else if o2.code == 1 {
        lemma_lexical_code_one(src, o2, o1);
    }
}

proof fn lemma_lexical_code_one(src: Seq<char>, o1: Outcome, o2: Outcome)
    requires
        reports(src, o1),
        reports(src, o2),
        o1.code == 1,
    ensures
        o2.code == 1,
        o1.diagnostics@[0]@ == o2.diagnostics@[0]@,
{
    let (t1, e1, x1) = choose|toks: Seq<Token>, ends: Seq<int>, e: LexError|
        #[trigger] first_lex_error(src, toks, ends, e) && o1.diagnostics@[0]@ == diagnostic_text(
            e.spec_position(),
            "LEXICAL"@,
            e.spec_clean_message(),
        );
    if o2.code == 1 {
        let (t2, e2, x2) = choose|toks: Seq<Token>, ends: Seq<int>, e: LexError|
            #[trigger] first_lex_error(src, toks, ends, e) && o2.diagnostics@[0]@ == diagnostic_text(
                e.spec_position(),
                "LEXICAL"@,
                e.spec_clean_message(),
            );
        law_lex_error_determined(src, t1, e1, x1, t2, e2, x2);
    } else {
        let toks = if o2.code == 2 {
            let (e, toks) = choose|e: crate::parse::ParseError, toks: Seq<Token>|
                #[trigger] program_error(src, toks, e@) && o2.diagnostics@[0]@ == diagnostic_text(
                    e.spec_position(),
                    "SYNTACTIC"@,
                    e.spec_clean_message(),
                );
            toks
        } else if o2.code == 0 {
            choose|toks: Seq<Token>| #[trigger] program_of(src, toks, program_view(o2.program->Some_0))
        } else {
            let (p, errs) = choose|p: Program, errs: Seq<SemanticError>|
                #[trigger] checked(p, errs) && errs.len() >= 1 && semantic_lines(o2.diagnostics@, errs) && exists|
                    toks: Seq<Token>,
                | #[trigger] program_of(src, toks, program_view(p));
            choose|toks: Seq<Token>| #[trigger] program_of(src, toks, program_view(p))
        };
        assert(tokens_ok(src, toks));
        law_tokens_exclude_error(src, toks, t1, e1, x1);
    }
}

/// Runs the front end on `src` and reports on it.
pub fn analyze(src: &str) -> (o: Outcome)
    requires
        src@.len() < u32::MAX,
        src.spec_bytes().len() <= usize::MAX,
    ensures
        reports(src@, o),
{
    let program = match compile(src) {
        Ok(p) => p,
        Err(PipelineError::Lex(e)) => {
            let m = e.clean_message();
            let line = diagnostic(e.position(), "LEXICAL", m.as_str());
            return Outcome { code: 1, diagnostics: vec![line], program: None };
        },
        Err(PipelineError::Parse(e)) => {
            let m = e.clean_message();
            let line = diagnostic(e.position(), "SYNTACTIC", m.as_str());
            return Outcome { code: 2, diagnostics: vec![line], program: None };
        },
    };
    let errors = check(&program);
    if errors.len() > 0 {
        let mut lines: Vec<String> = Vec::new();
        let mut i: usize = 0;
        while i < errors.len()
            invariant
                i <= errors@.len(),
                lines@.len() == i,
                forall|k: int| 0 <= k < i ==> #[trigger] lines@[k]@ == semantic_line(errors@[k]),
            decreases errors.len() - i,
        {
            let m = errors[i].clean_message();
            lines.push(diagnostic(errors[i].position(), "SEMANTIC", m.as_str()));
            i += 1;
        }
        proof {
            assert(semantic_lines(lines@, errors@));
            assert(checked(program, errors@));
        }
        return Outcome { code: 3, diagnostics: lines, program: None };
    }
    proof {
        assert(errors@ =~= Seq::<SemanticError>::empty());
    }
    Outcome { code: 0, diagnostics: Vec::new(), program: Some(program) }
}

} // verus!
