//! Small text utilities shared by the front end: building strings from
//! characters and rendering numbers in decimal.
use vstd::prelude::*;
use vstd::string::*;

verus! {

/// `String::push`: appends one character at the end of the string.
#[verifier::external_body]
pub(crate) fn push_char(s: &mut String, c: char)
    ensures
        final(s)@ == old(s)@.push(c),
{
    s.push(c);
}

/// Appends the characters of `t` to `s`.
pub fn push_str(s: &mut String, t: &str)
    ensures
        final(s)@ == old(s)@ + t@,
{
    s.append(t);
}

/// True when the two strings hold the same characters.
pub fn str_is(s: &String, lit: &str) -> (r: bool)
    ensures
        r == (s@ == lit@),
{
    let t = lit.to_owned();
    s.eq(&t)
}

/// True when the two strings hold the same characters.
pub fn str_eq(a: &str, b: &str) -> (r: bool)
    ensures
        r == (a@ == b@),
{
    let x = a.to_owned();
    let y = b.to_owned();
    x.eq(&y)
}

/// The characters of `src`, in order.
pub fn collect_chars(src: &str) -> (v: Vec<char>)
    ensures
        v@ == src@,
{
    let mut v: Vec<char> = Vec::new();
    for c in it: src.chars()
        invariant
            v@ == it.seq().take(it.index()),
    {
        v.push(c);
    }
    v
}

/// A string holding `v[a..b]`.
pub fn string_of(v: &Vec<char>, a: usize, b: usize) -> (s: String)
    requires
        a <= b <= v.len(),
    ensures
        s@ == v@.subrange(a as int, b as int),
{
    let mut s = String::new();
    let mut i = a;
    while i < b
        invariant
            a <= i <= b <= v.len(),
            s@ == v@.subrange(a as int, i as int),
        decreases b - i,
    {
        push_char(&mut s, v[i]);
        assert(v@.subrange(a as int, i + 1) == v@.subrange(a as int, i as int).push(v@[i as int]));
        i += 1;
    }
    s
}

/// The decimal digit character for `d < 10`.
pub open spec fn digit_char(d: nat) -> char {
    if d == 0 { '0' } else if d == 1 { '1' } else if d == 2 { '2' } else if d == 3 { '3' }
    else if d == 4 { '4' } else if d == 5 { '5' } else if d == 6 { '6' } else if d == 7 { '7' }
    else if d == 8 { '8' } else { '9' }
}

/// The decimal rendering of `n`, without leading zeros ("0" for zero).
pub open spec fn decimal(n: nat) -> Seq<char>
    decreases n,
{
    if n < 10 {
        seq![digit_char(n)]
    } else {
        decimal(n / 10).push(digit_char(n % 10))
    }
}

fn digit_of(d: usize) -> (c: char)
    requires
        d < 10,
    ensures
        c == digit_char(d as nat),
{
    if d == 0 { '0' } else if d == 1 { '1' } else if d == 2 { '2' } else if d == 3 { '3' }
    else if d == 4 { '4' } else if d == 5 { '5' } else if d == 6 { '6' } else if d == 7 { '7' }
    else if d == 8 { '8' } else { '9' }
}

/// Renders `n` in decimal, as `Display` for unsigned integers does.
pub fn usize_to_string(n: usize) -> (s: String)
    ensures
        s@ == decimal(n as nat),
    decreases n,
{
    if n < 10 {
        let mut s = String::new();
        push_char(&mut s, digit_of(n));
        s
    } else {
        let mut s = usize_to_string(n / 10);
        push_char(&mut s, digit_of(n % 10));
        s
    }
}

/// Renders `n` in decimal.
pub fn u64_to_string(n: u64) -> (s: String)
    ensures
        s@ == decimal(n as nat),
    decreases n,
{
    if n < 10 {
        let mut s = String::new();
        push_char(&mut s, digit_of(n as usize));
        s
    } else {
        let mut s = u64_to_string(n / 10);
        push_char(&mut s, digit_of((n % 10) as usize));
        s
    }
}

/// The decimal rendering of `i`, with a minus sign when negative.
pub open spec fn signed_decimal(i: int) -> Seq<char> {
    if i < 0 {
        "-"@ + decimal((-i) as nat)
    } else {
        decimal(i as nat)
    }
}

/// Renders `i` in decimal, as `Display` for signed integers does.
pub fn i64_to_string(i: i64) -> (s: String)
    ensures
        s@ == signed_decimal(i as int),
{
    if i < 0 {
        let m: u64 = if i == i64::MIN { 9223372036854775808u64 } else { (-i) as u64 };
        let mut s = "-".to_owned();
        let d = u64_to_string(m);
        push_str(&mut s, d.as_str());
        s
    } else {
        u64_to_string(i as u64)
    }
}

/// Renders `n` in decimal.
pub fn u32_to_string(n: u32) -> (s: String)
    ensures
        s@ == decimal(n as nat),
{
    usize_to_string(n as usize)
}

/// How `Debug` writes a string: in double quotes, with escapes.
pub uninterp spec fn debug_quoted(s: Seq<char>) -> Seq<char>;

/// Renders `s` with `format!("{:?}", s)`; the result is named, not described.
#[verifier::external_body]
pub(crate) fn debug_string(s: &str) -> (r: String)
    ensures
        r@ == debug_quoted(s@),
{
    format!("{:?}", s)
}


/// Why a text is not a 64-bit integer, as `ParseIntError` tells.
#[derive(Debug, Clone, Copy, PartialEq, Eq, Structural)]
pub enum IntError {
    Empty,
    InvalidDigit,
    PosOverflow,
    NegOverflow,
}

impl IntError {
    pub open spec fn spec_message(&self) -> Seq<char> {
        match self {
            IntError::Empty => "cannot parse integer from empty string"@,
            IntError::InvalidDigit => "invalid digit found in string"@,
            IntError::PosOverflow => "number too large to fit in target type"@,
            IntError::NegOverflow => "number too small to fit in target type"@,
        }
    }

    /// The message `ParseIntError`'s `Display` writes.
    pub fn message(&self) -> (r: String)
        ensures
            r@ == self.spec_message(),
    {
        match self {
            IntError::Empty => "cannot parse integer from empty string".to_owned(),
            IntError::InvalidDigit => "invalid digit found in string".to_owned(),
            IntError::PosOverflow => "number too large to fit in target type".to_owned(),
            IntError::NegOverflow => "number too small to fit in target type".to_owned(),
        }
    }
}

pub open spec fn is_digit(c: char) -> bool {
    '0' <= c && c <= '9'
}

/// The state after reading the first `k` digit characters of `ds`, a number
/// with the given sign: its value, or the first error met.
pub open spec fn read_digits(ds: Seq<char>, k: nat, positive: bool) -> Result<int, IntError>
    decreases k,
{
    if k == 0 {
        Ok(0)
    } else {
        match read_digits(ds, (k - 1) as nat, positive) {
            Err(e) => Err(e),
            Ok(v) => {
                let c = ds[k - 1];
                if !is_digit(c) {
                    Err(IntError::InvalidDigit)
                } else {
                    let d = c as int - '0' as int;
                    if positive {
                        if v * 10 + d > i64::MAX {
                            Err(IntError::PosOverflow)
                        } else {
                            Ok(v * 10 + d)
                        }
                    } else {
                        if v * 10 - d < i64::MIN {
                            Err(IntError::NegOverflow)
                        } else {
                            Ok(v * 10 - d)
                        }
                    }
                }
            },
        }
    }
}

/// What `str::parse::<i64>` gives: an optional sign, then decimal digits.
pub open spec fn parse_i64_spec(s: Seq<char>) -> Result<int, IntError> {
    if s.len() == 0 {
        Err(IntError::Empty)
    } else if (s[0] == '+' || s[0] == '-') && s.len() == 1 {
        Err(IntError::InvalidDigit)
    } else if s[0] == '+' {
        read_digits(s.drop_first(), (s.len() - 1) as nat, true)
    } else if s[0] == '-' {
        read_digits(s.drop_first(), (s.len() - 1) as nat, false)
    } else {
        read_digits(s, s.len(), true)
    }
}

proof fn lemma_read_digits_range(ds: Seq<char>, k: nat, positive: bool)
    ensures
        read_digits(ds, k, positive) matches Ok(v) ==> i64::MIN <= v <= i64::MAX && (positive ==> v >= 0) && (
        !positive ==> v <= 0),
    decreases k,
{
    if k > 0 {
        lemma_read_digits_range(ds, (k - 1) as nat, positive);
    }
}

proof fn lemma_read_digits_err(ds: Seq<char>, k: nat, m: nat, positive: bool)
    requires
        k <= m,
        read_digits(ds, k, positive) is Err,
    ensures
        read_digits(ds, m, positive) == read_digits(ds, k, positive),
    decreases m,
{
    if m > k {
        lemma_read_digits_err(ds, k, (m - 1) as nat, positive);
    }
}

/// Parses a decimal 64-bit integer as `str::parse::<i64>` does.
pub fn parse_i64(s: &str) -> (r: Result<i64, IntError>)
    ensures
        match r {
            Ok(n) => parse_i64_spec(s@) == Ok::<int, IntError>(n as int),
            Err(e) => parse_i64_spec(s@) == Err::<int, IntError>(e),
        },
{
    let cs = collect_chars(s);
    let n = cs.len();
    if n == 0 {
        return Err(IntError::Empty);
    }
    if (cs[0] == '+' || cs[0] == '-') && n == 1 {
        return Err(IntError::InvalidDigit);
    }
    let positive = cs[0] != '-';
    let start: usize = if cs[0] == '+' || cs[0] == '-' { 1 } else { 0 };
    let ghost ds = cs@.subrange(start as int, n as int);
    proof {
        if start == 1 {
            assert(ds =~= s@.drop_first());
        } else {
            assert(ds =~= s@);
        }
        assert(parse_i64_spec(s@) == read_digits(ds, (n - start) as nat, positive));
    }
    let mut acc: i64 = 0;
    let mut i: usize = start;
    while i < n
        invariant
            start <= i <= n,
            n == cs@.len(),
            ds == cs@.subrange(start as int, n as int),
            parse_i64_spec(s@) == read_digits(ds, (n - start) as nat, positive),
            read_digits(ds, (i - start) as nat, positive) == Ok::<int, IntError>(acc as int),
        decreases n - i,
    {
        let c = cs[i];
        proof {
            lemma_read_digits_range(ds, (i - start) as nat, positive);
            assert(ds[(i + 1 - start) - 1] == c);
            assert((i + 1 - start) as nat - 1 == (i - start) as nat);
        }
        if !('0' <= c && c <= '9') {
            proof {
                lemma_read_digits_err(ds, (i + 1 - start) as nat, (n - start) as nat, positive);
            }
            return Err(IntError::InvalidDigit);
        }
        let d = (c as u32 - '0' as u32) as i128;
        let w: i128 = if positive { (acc as i128) * 10 + d } else { (acc as i128) * 10 - d };
        if positive && w > i64::MAX as i128 {
            proof {
                lemma_read_digits_err(ds, (i + 1 - start) as nat, (n - start) as nat, positive);
            }
            return Err(IntError::PosOverflow);
        }
        if !positive && w < i64::MIN as i128 {
            proof {
                lemma_read_digits_err(ds, (i + 1 - start) as nat, (n - start) as nat, positive);
            }
            return Err(IntError::NegOverflow);
        }
        proof {
            assert(read_digits(ds, (i + 1 - start) as nat, positive) == Ok::<int, IntError>(w as int));
            lemma_read_digits_range(ds, (i + 1 - start) as nat, positive);
        }
        acc = w as i64;
        i += 1;
    }
    Ok(acc)
}

} // verus!
