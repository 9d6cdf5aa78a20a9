//! Character-level text helpers: Unicode whitespace trimming, searching for
//! a character, and decimal integer parsing with the semantics of Rust's
//! `str::trim` and `str::parse::<i16>` / `str::parse::<u8>`.

use vstd::prelude::*;

verus! {

/// Characters with the Unicode `White_Space` property (`char::is_whitespace`).
pub open spec fn is_whitespace_spec(c: char) -> bool {
    let u = c as u32;
    ||| 0x09 <= u <= 0x0D
    ||| u == 0x20
    ||| u == 0x85
    ||| u == 0xA0
    ||| u == 0x1680
    ||| 0x2000 <= u <= 0x200A
    ||| u == 0x2028
    ||| u == 0x2029
    ||| u == 0x202F
    ||| u == 0x205F
    ||| u == 0x3000
}

pub fn is_whitespace(c: char) -> (b: bool)
    ensures
        b == is_whitespace_spec(c),
{
    let u: u32 = c as u32;
    (0x09 <= u && u <= 0x0D) || u == 0x20 || u == 0x85 || u == 0xA0 || u == 0x1680 || (0x2000 <= u
        && u <= 0x200A) || u == 0x2028 || u == 0x2029 || u == 0x202F || u == 0x205F || u == 0x3000
}

/// `s` without its leading whitespace.
pub open spec fn trim_start(s: Seq<char>) -> Seq<char>
    decreases s.len(),
{
    if s.len() > 0 && is_whitespace_spec(s[0]) {
        trim_start(s.drop_first())
    } else {
        s
    }
}

/// `s` without its trailing whitespace.
pub open spec fn trim_end(s: Seq<char>) -> Seq<char>
    decreases s.len(),
{
    if s.len() > 0 && is_whitespace_spec(s.last()) {
        trim_end(s.drop_last())
    } else {
        s
    }
}

/// `s` without leading and trailing whitespace (`str::trim`).
pub open spec fn trim(s: Seq<char>) -> Seq<char> {
    trim_end(trim_start(s))
}

/// Index of the first `c` in `s`, or `s.len()` when there is none.
pub open spec fn index_of(s: Seq<char>, c: char) -> int
    decreases s.len(),
{
    if s.len() == 0 {
        0
    } else if s[0] == c {
        0
    } else {
        1 + index_of(s.drop_first(), c)
    }
}

pub proof fn lemma_index_of_bounds(s: Seq<char>, c: char)
    ensures
        0 <= index_of(s, c) <= s.len(),
        index_of(s, c) < s.len() ==> s[index_of(s, c)] == c,
        forall|j: int| 0 <= j < index_of(s, c) ==> s[j] != c,
    decreases s.len(),
{
    if s.len() > 0 && s[0] != c {
        lemma_index_of_bounds(s.drop_first(), c);
        assert forall|j: int| 0 <= j < index_of(s, c) implies s[j] != c by {
            if j > 0 {
                assert(s[j] == s.drop_first()[j - 1]);
            }
        }
    }
}

/// Trims the range `s[lo..hi]`; returns the bounds of the trimmed range.
pub fn trim_range(s: &[char], lo: usize, hi: usize) -> (r: (usize, usize))
    requires
        lo <= hi <= s@.len(),
    ensures
        lo <= r.0 <= r.1 <= hi,
        s@.subrange(r.0 as int, r.1 as int) == trim(s@.subrange(lo as int, hi as int)),
{
    let mut a: usize = lo;
    while a < hi && is_whitespace(s[a])
        invariant
            lo <= a <= hi <= s@.len(),
            trim_start(s@.subrange(lo as int, hi as int)) == trim_start(s@.subrange(a as int, hi as int)),
        decreases hi - a,
    {
        assert(s@.subrange(a as int, hi as int).drop_first() =~= s@.subrange(a + 1, hi as int));
        a = a + 1;
    }
    assert(trim_start(s@.subrange(a as int, hi as int)) == s@.subrange(a as int, hi as int));
    let mut b: usize = hi;
    while b > a && is_whitespace(s[b - 1])
        invariant
            lo <= a <= b <= hi <= s@.len(),
            trim_end(s@.subrange(a as int, hi as int)) == trim_end(s@.subrange(a as int, b as int)),
        decreases b - a,
    {
        assert(s@.subrange(a as int, b as int).drop_last() =~= s@.subrange(a as int, b - 1));
        b = b - 1;
    }
    assert(trim_end(s@.subrange(a as int, b as int)) == s@.subrange(a as int, b as int));
    (a, b)
}

/// Position of the first `c` in `s[lo..hi]`, or `hi` when there is none.
pub fn find_char(s: &[char], lo: usize, hi: usize, c: char) -> (r: usize)
    requires
        lo <= hi <= s@.len(),
    ensures
        lo <= r <= hi,
        r - lo == index_of(s@.subrange(lo as int, hi as int), c),
{
    let mut i: usize = lo;
    while i < hi && s[i] != c
        invariant
            lo <= i <= hi <= s@.len(),
            index_of(s@.subrange(lo as int, hi as int), c) == (i - lo) + index_of(
                s@.subrange(i as int, hi as int),
                c,
            ),
        decreases hi - i,
    {
        assert(s@.subrange(i as int, hi as int).drop_first() =~= s@.subrange(i + 1, hi as int));
        i = i + 1;
    }
    i
}

/// Why a string is not a decimal integer of the wanted type
/// (`core::num::IntErrorKind`).
#[derive(Debug, Clone, Copy, PartialEq, Eq, Structural)]
pub enum IntParseError {
    /// The string is empty.
    Empty,
    /// A character is not a digit (or a lone sign).
    InvalidDigit,
    /// The number is above the type's maximum.
    PosOverflow,
    /// The number is below the type's minimum.
    NegOverflow,
}

impl IntParseError {
    /// The error in the words `str::parse` uses for it.
    pub fn description(&self) -> (s: &'static str)
        ensures
            s@ == match self {
                IntParseError::Empty => "cannot parse integer from empty string"@,
                IntParseError::InvalidDigit => "invalid digit found in string"@,
                IntParseError::PosOverflow => "number too large to fit in target type"@,
                IntParseError::NegOverflow => "number too small to fit in target type"@,
            },
    {
        match self {
            IntParseError::Empty => "cannot parse integer from empty string",
            IntParseError::InvalidDigit => "invalid digit found in string",
            IntParseError::PosOverflow => "number too large to fit in target type",
            IntParseError::NegOverflow => "number too small to fit in target type",
        }
    }
}

/// `'0'..='9'`.
pub open spec fn is_digit(c: char) -> bool {
    0x30 <= c as u32 <= 0x39
}

pub open spec fn digit_value(c: char) -> int {
    c as u32 - 0x30
}

/// Accumulates decimal digits left to right from `acc`, stopping at the
/// first character that is not a digit or the first value out of
/// `[min, max]`.
pub open spec fn parse_digits(s: Seq<char>, acc: int, neg: bool, min: int, max: int) -> Result<
    int,
    IntParseError,
>
    decreases s.len(),
{
    if s.len() == 0 {
        Ok(acc)
    } else if !is_digit(s[0]) {
        Err(IntParseError::InvalidDigit)
    } else {
        let v = if neg {
            acc * 10 - digit_value(s[0])
        } else {
            acc * 10 + digit_value(s[0])
        };
        if v > max {
            Err(IntParseError::PosOverflow)
        } else if v < min {
            Err(IntParseError::NegOverflow)
        } else {
            parse_digits(s.drop_first(), v, neg, min, max)
        }
    }
}

/// Decimal integer parsing as `str::parse` does it for an integer type with
/// range `[min, max]` (`signed`: whether a leading `-` is a sign).
pub open spec fn parse_int(s: Seq<char>, signed: bool, min: int, max: int) -> Result<int, IntParseError> {
    if s.len() == 0 {
        Err(IntParseError::Empty)
    } else if s.len() == 1 && (s[0] == '+' || s[0] == '-') {
        Err(IntParseError::InvalidDigit)
    } else if s[0] == '+' {
        parse_digits(s.drop_first(), 0, false, min, max)
    } else if s[0] == '-' && signed {
        parse_digits(s.drop_first(), 0, true, min, max)
    } else {
        parse_digits(s, 0, false, min, max)
    }
}

fn parse_int_range(s: &[char], lo: usize, hi: usize, signed: bool, min: i32, max: i32) -> (r: Result<
    i32,
    IntParseError,
>)
    requires
        lo <= hi <= s@.len(),
        -32768 <= min <= 0,
        0 <= max <= 32767,
    ensures
        match parse_int(s@.subrange(lo as int, hi as int), signed, min as int, max as int) {
            Ok(v) => r == Ok::<i32, IntParseError>(v as i32) && min <= v <= max,
            Err(e) => r == Err::<i32, IntParseError>(e),
        },
{
    let ghost sub = s@.subrange(lo as int, hi as int);
    if lo == hi {
        return Err(IntParseError::Empty);
    }
    if hi - lo == 1 && (s[lo] == '+' || s[lo] == '-') {
        return Err(IntParseError::InvalidDigit);
    }
    let mut i: usize = lo;
    let mut neg: bool = false;
    if s[lo] == '+' {
        i = lo + 1;
        assert(sub.drop_first() =~= s@.subrange(i as int, hi as int));
    } else if s[lo] == '-' && signed {
        i = lo + 1;
        neg = true;
        assert(sub.drop_first() =~= s@.subrange(i as int, hi as int));
    } else {
        assert(sub =~= s@.subrange(i as int, hi as int));
    }
    let mut acc: i32 = 0;
    while i < hi
        invariant
            lo <= i <= hi <= s@.len(),
            -32768 <= min <= 0,
            0 <= max <= 32767,
            min <= acc <= max,
            sub == s@.subrange(lo as int, hi as int),
            parse_int(sub, signed, min as int, max as int) == parse_digits(
                s@.subrange(i as int, hi as int),
                acc as int,
                neg,
                min as int,
                max as int,
            ),
        decreases hi - i,
    {
        let c: char = s[i];
        assert(s@.subrange(i as int, hi as int)[0] == c);
        assert(s@.subrange(i as int, hi as int).drop_first() =~= s@.subrange(i + 1, hi as int));
        let u: u32 = c as u32;
        if u < 0x30 || u > 0x39 {
            return Err(IntParseError::InvalidDigit);
        }
        let d: i32 = (u - 0x30) as i32;
        let v: i32 = if neg {
            acc * 10 - d
        } else {
            acc * 10 + d
        };
        if v > max {
            return Err(IntParseError::PosOverflow);
        }
        if v < min {
            return Err(IntParseError::NegOverflow);
        }
        acc = v;
        i = i + 1;
    }
    Ok(acc)
}

/// `str::parse::<i16>` on characters.
pub fn parse_i16(s: &[char]) -> (r: Result<i16, IntParseError>)
    ensures
        match parse_int(s@, true, -32768, 32767) {
            Ok(v) => r == Ok::<i16, IntParseError>(v as i16) && -32768 <= v <= 32767,
            Err(e) => r == Err::<i16, IntParseError>(e),
        },
{
    assert(s@.subrange(0, s@.len() as int) =~= s@);
    match parse_int_range(s, 0, s.len(), true, -32768, 32767) {
        Ok(v) => Ok(v as i16),
        Err(e) => Err(e),
    }
}

/// `str::parse::<u8>` on characters.
pub fn parse_u8(s: &[char]) -> (r: Result<u8, IntParseError>)
    ensures
        match parse_int(s@, false, 0, 255) {
            Ok(v) => r == Ok::<u8, IntParseError>(v as u8) && 0 <= v <= 255,
            Err(e) => r == Err::<u8, IntParseError>(e),
        },
{
    assert(s@.subrange(0, s@.len() as int) =~= s@);
    match parse_int_range(s, 0, s.len(), false, 0, 255) {
        Ok(v) => Ok(v as u8),
        Err(e) => Err(e),
    }
}

/// `str::parse::<i16>` on the range `s[lo..hi]`.
pub fn parse_i16_range(s: &[char], lo: usize, hi: usize) -> (r: Result<i16, IntParseError>)
    requires
        lo <= hi <= s@.len(),
    ensures
        match parse_int(s@.subrange(lo as int, hi as int), true, -32768, 32767) {
            Ok(v) => r == Ok::<i16, IntParseError>(v as i16) && -32768 <= v <= 32767,
            Err(e) => r == Err::<i16, IntParseError>(e),
        },
{
    match parse_int_range(s, lo, hi, true, -32768, 32767) {
        Ok(v) => Ok(v as i16),
        Err(e) => Err(e),
    }
}

/// `str::parse::<u8>` on the range `s[lo..hi]`.
pub fn parse_u8_range(s: &[char], lo: usize, hi: usize) -> (r: Result<u8, IntParseError>)
    requires
        lo <= hi <= s@.len(),
    ensures
        match parse_int(s@.subrange(lo as int, hi as int), false, 0, 255) {
            Ok(v) => r == Ok::<u8, IntParseError>(v as u8) && 0 <= v <= 255,
            Err(e) => r == Err::<u8, IntParseError>(e),
        },
{
    match parse_int_range(s, lo, hi, false, 0, 255) {
        Ok(v) => Ok(v as u8),
        Err(e) => Err(e),
    }
}

/// The characters of a string.
pub fn str_chars(s: &str) -> (v: Vec<char>)
    ensures
        v@ == s@,
{
    let mut v: Vec<char> = Vec::new();
    for c in it: s.chars()
        invariant
            v@ == it.seq().take(it.index() as int),
            it.seq() == s@,
    {
        v.push(c);
    }
    v
}

/// Wraps `String::from_iter` over characters: the string holds exactly
/// these characters, in order.
#[verifier::external_body]
pub(crate) fn string_from_chars(chars: &[char]) -> (s: String)
    ensures
        s@ == chars@,
{
    String::from_iter(chars.iter())
}

/// The decimal digit or lowercase hexadecimal digit for `d < 16`.
pub open spec fn digit_char(d: nat) -> char {
    if d < 10 {
        (0x30 + d) as char
    } else {
        (0x57 + d) as char
    }
}

/// `n` written in base `b` (10 or 16) without leading zeros ("0" for zero).
pub open spec fn digits(n: nat, b: nat) -> Seq<char>
    decreases n,
{
    if b < 2 || n < b {
        seq![digit_char(n % 16)]
    } else {
        proof {
            assert(n / b < n) by (nonlinear_arith)
                requires
                    b >= 2,
                    n >= b,
            ;
        }
        digits(n / b, b) + seq![digit_char(n % b)]
    }
}

/// A signed decimal with its sign always written, as `{:+}` writes it.
pub open spec fn signed_decimal(v: int) -> Seq<char> {
    if v < 0 {
        seq!['-'] + digits((-v) as nat, 10)
    } else {
        seq!['+'] + digits(v as nat, 10)
    }
}

fn digit_char_exec(d: u64) -> (c: char)
    requires
        d < 16,
    ensures
        c == digit_char(d as nat),
{
    let code: u8 = if d < 10 { 0x30 + d as u8 } else { 0x57 + d as u8 };
    code as char
}

/// Appends `n` written in base `b`.
pub(crate) fn push_digits(out: &mut Vec<char>, n: u64, b: u64)
    requires
        b == 10 || b == 16,
    ensures
        final(out)@ == old(out)@ + digits(n as nat, b as nat),
    decreases n,
{
    if n >= b {
        push_digits(out, n / b, b);
    }
    let d: u64 = n % b;
    let c: char = digit_char_exec(d);
    out.push(c);
    proof {
        if n < b {
            assert(n % 16 == n % b);
        }
    }
    assert(final(out)@ =~= old(out)@ + digits(n as nat, b as nat)) by {
        if n >= b {
            assert(digits(n as nat, b as nat) == digits((n / b) as nat, b as nat) + seq![digit_char((n % b) as nat)]);
        }
    }
}

/// Appends the characters of `s`.
pub(crate) fn push_str(out: &mut Vec<char>, s: &str)
    ensures
        final(out)@ == old(out)@ + s@,
{
    let cs: Vec<char> = str_chars(s);
    let mut i: usize = 0;
    while i < cs.len()
        invariant
            i <= cs@.len(),
            cs@ == s@,
            out@ == old(out)@ + cs@.subrange(0, i as int),
        decreases cs@.len() - i,
    {
        out.push(cs[i]);
        i = i + 1;
        assert(out@ =~= old(out)@ + cs@.subrange(0, i as int));
    }
    assert(cs@.subrange(0, cs@.len() as int) =~= cs@);
}

} // verus!
