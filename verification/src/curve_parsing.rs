//! Parsing of `.curvedef` files.
//!
//! - Anything after a `#` is a comment and is ignored; fields are trimmed.
//! - The first line that is neither blank nor a `#` comment is the curve's
//!   name (without its comment).
//! - Every later such line is a point `temp,pwm` in (°C, PWM %).
//! - Temperatures are stored EC-encoded (`°C + 73`).
//!
//! The lines are scanned in order and the first bad line is reported; the
//! whole point list is then checked: at least two points, strictly
//! increasing temperatures, speeds at most 100.

use vstd::prelude::*;

use crate::curve_lut_gen::{lemma_adjacent_increasing_pairwise, valid_curve};
use crate::fan_curve::{flatten_spec, points_signature, xxh3_64_spec, ParsedCurve};
use crate::text::{
    digits, find_char, index_of, lemma_index_of_bounds, parse_i16_range, parse_int, parse_u8_range,
    push_digits, push_str, string_from_chars, trim, trim_range,
};

verus! {

/// Why a `.curvedef` file was rejected; `line` counts from 0 over all lines.
#[derive(Debug, PartialEq, Eq)]
pub enum CurveDefError {
    /// The temperature field is not an `i16`.
    InvalidTemperature { line: usize },
    /// `temp + 73` is not a byte.
    TemperatureOutOfRange { temp: i16, line: usize },
    /// `temp + 73` is one of the EC's error codes (0xFC..=0xFF).
    NonsensicalTemperature { temp: i16, line: usize },
    /// The line has no `,`.
    MissingPwm { line: usize },
    /// The PWM field is not a `u8`.
    InvalidPwm { line: usize },
    /// Fewer than two points.
    TooFewPoints,
    /// Two consecutive points whose temperatures do not increase.
    NotIncreasing,
    /// A speed above 100.
    SpeedAbove100,
    /// No name line.
    NoName,
}

/// A decimal integer as `{}` writes it: a `-` before negative values only.
pub open spec fn plain_decimal(v: int) -> Seq<char> {
    if v < 0 {
        seq!['-'] + digits((-v) as nat, 10)
    } else {
        digits(v as nat, 10)
    }
}

/// The message shown for each way a curve file can be malformed.
pub open spec fn error_message(e: CurveDefError) -> Seq<char> {
    match e {
        CurveDefError::InvalidTemperature { line } => "Invalid temperature on line "@ + digits(line as nat, 10),
        CurveDefError::TemperatureOutOfRange { temp, line } => "Temperature "@ + plain_decimal(temp as int)
            + " out of EC range on line "@ + digits(line as nat, 10),
        CurveDefError::NonsensicalTemperature { temp, line } => "Nonsensical temperature "@ + plain_decimal(
            temp as int,
        ) + " on line "@ + digits(line as nat, 10),
        CurveDefError::MissingPwm { line } => "Missing PWM on line "@ + digits(line as nat, 10),
        CurveDefError::InvalidPwm { line } => "Invalid PWM on line "@ + digits(line as nat, 10),
        CurveDefError::TooFewPoints => "At least two points (start and end) are required"@,
        CurveDefError::NotIncreasing => "Curve X coordinates must be strictly increasing"@,
        CurveDefError::SpeedAbove100 => "Intermediate Y must be <= 100"@,
        CurveDefError::NoName => "No name found... somehow"@,
    }
}

fn push_plain_decimal(out: &mut Vec<char>, v: i16)
    ensures
        final(out)@ == old(out)@ + plain_decimal(v as int),
{
    if v < 0 {
        out.push('-');
        let m: u64 = (-(v as i32)) as u64;
        push_digits(out, m, 10);
        assert(final(out)@ =~= old(out)@ + plain_decimal(v as int));
    } else {
        push_digits(out, v as u64, 10);
    }
}

impl CurveDefError {
    /// The error as the text shown to the user.
    pub fn message(&self) -> (text: String)
        ensures
            text@ == error_message(*self),
    {
        let mut out: Vec<char> = Vec::new();
        match self {
            CurveDefError::InvalidTemperature { line } => {
                push_str(&mut out, "Invalid temperature on line ");
                push_digits(&mut out, *line as u64, 10);
            },
            CurveDefError::TemperatureOutOfRange { temp, line } => {
                push_str(&mut out, "Temperature ");
                push_plain_decimal(&mut out, *temp);
                push_str(&mut out, " out of EC range on line ");
                push_digits(&mut out, *line as u64, 10);
            },
            CurveDefError::NonsensicalTemperature { temp, line } => {
                push_str(&mut out, "Nonsensical temperature ");
                push_plain_decimal(&mut out, *temp);
                push_str(&mut out, " on line ");
                push_digits(&mut out, *line as u64, 10);
            },
            CurveDefError::MissingPwm { line } => {
                push_str(&mut out, "Missing PWM on line ");
                push_digits(&mut out, *line as u64, 10);
            },
            CurveDefError::InvalidPwm { line } => {
                push_str(&mut out, "Invalid PWM on line ");
                push_digits(&mut out, *line as u64, 10);
            },
            CurveDefError::TooFewPoints => {
                push_str(&mut out, "At least two points (start and end) are required");
            },
            CurveDefError::NotIncreasing => {
                push_str(&mut out, "Curve X coordinates must be strictly increasing");
            },
            CurveDefError::SpeedAbove100 => {
                push_str(&mut out, "Intermediate Y must be <= 100");
            },
            CurveDefError::NoName => {
                push_str(&mut out, "No name found... somehow");
            },
        }
        assert(out@ =~= error_message(*self));
        string_from_chars(out.as_slice())
    }
}

/// The state of a scan: the name (once seen) and the points so far.
pub struct CurveScan {
    pub name: Option<Vec<char>>,
    pub points: Vec<(u8, u8)>,
}

impl View for CurveScan {
    type V = (Option<Seq<char>>, Seq<(u8, u8)>);

    open spec fn view(&self) -> (Option<Seq<char>>, Seq<(u8, u8)>) {
        (
            match self.name {
                Some(v) => Some(v@),
                None => None,
            },
            self.points@,
        )
    }
}

/// The effect of line `i` on the scan state.
pub open spec fn scan_line_spec(
    st: (Option<Seq<char>>, Seq<(u8, u8)>),
    i: usize,
    line: Seq<char>,
) -> Result<(Option<Seq<char>>, Seq<(u8, u8)>), CurveDefError> {
    let t = trim(line);
    let body = trim(t.subrange(0, index_of(t, '#')));
    if t.len() == 0 || t[0] == '#' {
        Ok(st)
    } else if st.0 is None {
        Ok((Some(body), st.1))
    } else {
        let c1 = index_of(body, ',');
        match parse_int(trim(body.subrange(0, c1)), true, -32768, 32767) {
            Err(_) => Err(CurveDefError::InvalidTemperature { line: i }),
            Ok(temp) => if !(0 <= temp + 73 <= 255) {
                Err(CurveDefError::TemperatureOutOfRange { temp: temp as i16, line: i })
            } else if temp + 73 >= 0xFC {
                Err(CurveDefError::NonsensicalTemperature { temp: temp as i16, line: i })
            } else if c1 >= body.len() {
                Err(CurveDefError::MissingPwm { line: i })
            } else {
                let rest = body.subrange(c1 + 1, body.len() as int);
                let c2 = index_of(rest, ',');
                match parse_int(trim(rest.subrange(0, c2)), false, 0, 255) {
                    Err(_) => Err(CurveDefError::InvalidPwm { line: i }),
                    Ok(pwm) => Ok((st.0, st.1.push(((temp + 73) as u8, pwm as u8)))),
                }
            },
        }
    }
}

/// The scan state after the first `n` lines, or the first line's error.
pub open spec fn scan_prefix(lines: Seq<Seq<char>>, n: nat) -> Result<
    (Option<Seq<char>>, Seq<(u8, u8)>),
    CurveDefError,
>
    decreases n,
{
    if n == 0 {
        Ok((None, Seq::empty()))
    } else {
        match scan_prefix(lines, (n - 1) as nat) {
            Err(e) => Err(e),
            Ok(st) => scan_line_spec(st, (n - 1) as usize, lines[n - 1]),
        }
    }
}

pub open spec fn lines_view(lines: Seq<Vec<char>>) -> Seq<Seq<char>> {
    lines.map_values(|l: Vec<char>| l@)
}

/// The verdict on a completed scan, `None` when it is a valid curve.
pub open spec fn check_points(st: (Option<Seq<char>>, Seq<(u8, u8)>)) -> Option<CurveDefError> {
    let p = st.1;
    if p.len() < 2 {
        Some(CurveDefError::TooFewPoints)
    } else if exists|i: int| 0 <= i < p.len() - 1 && #[trigger] p[i + 1].0 <= p[i].0 {
        Some(CurveDefError::NotIncreasing)
    } else if exists|i: int| 0 <= i < p.len() && #[trigger] p[i].1 > 100 {
        Some(CurveDefError::SpeedAbove100)
    } else if st.0 is None {
        Some(CurveDefError::NoName)
    } else {
        None
    }
}

fn copy_range(s: &[char], lo: usize, hi: usize) -> (v: Vec<char>)
    requires
        lo <= hi <= s@.len(),
    ensures
        v@ == s@.subrange(lo as int, hi as int),
{
    let mut v: Vec<char> = Vec::new();
    let mut i: usize = lo;
    while i < hi
        invariant
            lo <= i <= hi <= s@.len(),
            v@ == s@.subrange(lo as int, i as int),
        decreases hi - i,
    {
        v.push(s[i]);
        i = i + 1;
        assert(v@ =~= s@.subrange(lo as int, i as int));
    }
    v
}

/// A blank line or a comment line, wherever it stands, leaves the scan as it
/// was.
pub proof fn lemma_comment_lines_ignored(
    st: (Option<Seq<char>>, Seq<(u8, u8)>),
    i: usize,
    line: Seq<char>,
)
    requires
        trim(line).len() == 0 || trim(line)[0] == '#',
    ensures
        scan_line_spec(st, i, line) == Ok::<(Option<Seq<char>>, Seq<(u8, u8)>), CurveDefError>(st),
{
}

/// Applies line `i` to the scan.
pub fn scan_line(scan: CurveScan, i: usize, line: &[char]) -> (r: Result<CurveScan, CurveDefError>)
    ensures
        match scan_line_spec(scan@, i, line@) {
            Ok(st) => r matches Ok(sc) && sc@ == st,
            Err(e) => r == Err::<CurveScan, CurveDefError>(e),
        },
        trim(line@).len() == 0 || trim(line@)[0] == '#' ==> (r matches Ok(sc) && sc@ == scan@),
{
    let n: usize = line.len();
    let (a, b) = trim_range(line, 0, n);
    assert(line@.subrange(0, n as int) =~= line@);
    let ghost t = line@.subrange(a as int, b as int);
    if a == b || line[a] == '#' {
        return Ok(scan);
    }
    let h: usize = find_char(line, a, b, '#');
    assert(t.subrange(0, h - a) =~= line@.subrange(a as int, h as int));
    let (ba, bb) = trim_range(line, a, h);
    let ghost body = line@.subrange(ba as int, bb as int);
    let CurveScan { name, mut points } = scan;
    match name {
        None => {
            let nm: Vec<char> = copy_range(line, ba, bb);
            return Ok(CurveScan { name: Some(nm), points });
        },
        Some(nm) => {
            let c1: usize = find_char(line, ba, bb, ',');
            proof {
                lemma_index_of_bounds(body, ',');
            }
            assert(body.subrange(0, c1 - ba) =~= line@.subrange(ba as int, c1 as int));
            let (ta, tb) = trim_range(line, ba, c1);
            let temp: i16 = match parse_i16_range(line, ta, tb) {
                Ok(v) => v,
                Err(_) => {
                    return Err(CurveDefError::InvalidTemperature { line: i });
                },
            };
            let raw: i32 = temp as i32 + 73;
            if !(0 <= raw && raw <= 255) {
                return Err(CurveDefError::TemperatureOutOfRange { temp, line: i });
            }
            if raw >= 0xFC {
                return Err(CurveDefError::NonsensicalTemperature { temp, line: i });
            }
            if c1 == bb {
                return Err(CurveDefError::MissingPwm { line: i });
            }
            let c2: usize = find_char(line, c1 + 1, bb, ',');
            let ghost rest = body.subrange(c1 - ba + 1, body.len() as int);
            assert(rest =~= line@.subrange(c1 + 1, bb as int));
            proof {
                lemma_index_of_bounds(rest, ',');
            }
            assert(rest.subrange(0, c2 - c1 - 1) =~= line@.subrange(c1 + 1, c2 as int));
            let (pa, pb) = trim_range(line, c1 + 1, c2);
            let pwm: u8 = match parse_u8_range(line, pa, pb) {
                Ok(v) => v,
                Err(_) => {
                    return Err(CurveDefError::InvalidPwm { line: i });
                },
            };
            points.push((raw as u8, pwm));
            return Ok(CurveScan { name: Some(nm), points });
        },
    }
}

/// Scans all lines in order, stopping at the first bad line.
pub fn squash_lines(lines: &[Vec<char>]) -> (r: Result<CurveScan, CurveDefError>)
    ensures
        match scan_prefix(lines_view(lines@), lines@.len()) {
            Ok(st) => r matches Ok(sc) && sc@ == st,
            Err(e) => r == Err::<CurveScan, CurveDefError>(e),
        },
{
    let ghost lv = lines_view(lines@);
    let mut scan: CurveScan = CurveScan { name: None, points: Vec::new() };
    assert(scan@ == (None::<Seq<char>>, Seq::<(u8, u8)>::empty()));
    let mut i: usize = 0;
    while i < lines.len()
        invariant
            i <= lines@.len(),
            lv == lines_view(lines@),
            scan_prefix(lv, i as nat) == Ok::<(Option<Seq<char>>, Seq<(u8, u8)>), CurveDefError>(scan@),
        decreases lines@.len() - i,
    {
        assert(lv[i as int] == lines@[i as int]@);
        match scan_line(scan, i, lines[i].as_slice()) {
            Ok(next) => {
                scan = next;
            },
            Err(e) => {
                assert(scan_prefix(lv, (i + 1) as nat) == Err::<(Option<Seq<char>>, Seq<(u8, u8)>), CurveDefError>(e));
                proof {
                    lemma_scan_prefix_stops(lv, (i + 1) as nat, lines@.len() as nat);
                }
                return Err(e);
            },
        }
        i = i + 1;
    }
    Ok(scan)
}

/// Once a line fails, every longer prefix fails with the same error.
proof fn lemma_scan_prefix_stops(lines: Seq<Seq<char>>, n: nat, m: nat)
    requires
        n <= m,
        scan_prefix(lines, n) is Err,
    ensures
        scan_prefix(lines, m) == scan_prefix(lines, n),
    decreases m - n,
{
    if m > n {
        lemma_scan_prefix_stops(lines, n, (m - 1) as nat);
    }
}

/// Checks a completed scan and builds the curve, signed with the XXH3
/// digest of its flattened points.
pub fn finish_curve(scan: CurveScan) -> (r: Result<ParsedCurve, CurveDefError>)
    ensures
        match check_points(scan@) {
            Some(e) => r == Err::<ParsedCurve, CurveDefError>(e),
            None => r matches Ok(c) && scan@.0 == Some(c.spec_name()) && c.spec_points() == scan@.1
                && c.spec_signature() == xxh3_64_spec(flatten_spec(scan@.1)) && valid_curve(
                c.spec_points(),
            ),
        },
{
    let ghost st = scan@;
    let signature: u64 = points_signature(scan.points.as_slice());
    let n: usize = scan.points.len();
    if n < 2 {
        return Err(CurveDefError::TooFewPoints);
    }
    let mut i: usize = 0;
    while i + 1 < n
        invariant
            st == scan@,
            n == scan.points@.len(),
            n >= 2,
            i + 1 <= n,
            forall|j: int| 0 <= j < i ==> #[trigger] scan.points@[j].0 < scan.points@[j + 1].0,
        decreases n - i,
    {
        if scan.points[i + 1].0 <= scan.points[i].0 {
            assert(scan.points@[i as int + 1].0 <= scan.points@[i as int].0);
            return Err(CurveDefError::NotIncreasing);
        }
        i = i + 1;
    }
    let mut k: usize = 0;
    while k < n
        invariant
            st == scan@,
            forall|j: int| 0 <= j < n - 1 ==> #[trigger] scan.points@[j].0 < scan.points@[j + 1].0,
            n == scan.points@.len(),
            n >= 2,
            k <= n,
            forall|j: int| 0 <= j < k ==> #[trigger] scan.points@[j].1 <= 100,
        decreases n - k,
    {
        if scan.points[k].1 > 100 {
            assert(scan.points@[k as int].1 > 100);
            assert(!(exists|j: int| 0 <= j < st.1.len() - 1 && #[trigger] st.1[j + 1].0 <= st.1[j].0)) by {
                assert forall|j: int| 0 <= j < st.1.len() - 1 implies !(#[trigger] st.1[j + 1].0 <= st.1[j].0) by {
                    assert(scan.points@[j].0 < scan.points@[j + 1].0);
                }
            }
            return Err(CurveDefError::SpeedAbove100);
        }
        k = k + 1;
    }
    let CurveScan { name, points } = scan;
    match name {
        None => Err(CurveDefError::NoName),
        Some(nm) => {
            proof {
                lemma_adjacent_increasing_pairwise(points@);
            }
            let s: String = string_from_chars(nm.as_slice());
            Ok(ParsedCurve::new(s, points, signature))
        },
    }
}

} // verus!
