//! Fan profiles: a named lookup table from EC temperature to fan speed.

use vstd::prelude::*;

use crate::curve_lut_gen::{
    generate_fan_curve_lut, lemma_lut_at_most_100, spline_lut, spline_lut_spec,
    valid_curve,
};
use crate::temp::ValidEcTemp;
use crate::text::{digits, push_digits, push_str, signed_decimal, string_from_chars};

verus! {

/// XXH3 (64-bit, seed 0) digest of a byte string.
pub uninterp spec fn xxh3_64_spec(data: Seq<u8>) -> u64;

/// Wraps `xxhash_rust::xxh3::xxh3_64`: the result is the XXH3-64 digest
/// (seed 0) of the bytes, a function of the bytes alone.
#[verifier::external_body]
fn xxh3_64(data: &[u8]) -> (h: u64)
    ensures
        h == xxh3_64_spec(data@),
{
    xxhash_rust::xxh3::xxh3_64(data)
}

/// The points laid out as bytes `x0, y0, x1, y1, ...`.
pub open spec fn flatten_spec(points: Seq<(u8, u8)>) -> Seq<u8> {
    Seq::new(2 * points.len(), |i: int| if i % 2 == 0 { points[i / 2].0 } else { points[i / 2].1 })
}

/// The points laid out as bytes `x0, y0, x1, y1, ...`.
pub fn flatten_points(points: &[(u8, u8)]) -> (bytes: Vec<u8>)
    ensures
        bytes@ == flatten_spec(points@),
{
    let mut bytes: Vec<u8> = Vec::new();
    let mut i: usize = 0;
    while i < points.len()
        invariant
            i <= points@.len(),
            bytes@.len() == 2 * i,
            forall|j: int| 0 <= j < 2 * i ==> #[trigger] bytes@[j] == flatten_spec(points@)[j],
        decreases points@.len() - i,
    {
        bytes.push(points[i].0);
        bytes.push(points[i].1);
        i = i + 1;
    }
    assert(bytes@ =~= flatten_spec(points@));
    bytes
}

/// Signature of a curve: the XXH3 digest of its flattened points.
pub fn points_signature(points: &[(u8, u8)]) -> (sig: u64)
    ensures
        sig == xxh3_64_spec(flatten_spec(points@)),
{
    let bytes: Vec<u8> = flatten_points(points);
    xxh3_64(bytes.as_slice())
}

/// What a profile is shown as: its name, the Celsius range of its table,
/// and its signature in hexadecimal, one line each.
pub open spec fn profile_text(name: Seq<char>, start: u8, end: u8, signature: u64) -> Seq<char> {
    "Fan Curve: "@ + name + "\nDefined between "@ + signed_decimal(start - 73) + "\u{b0}C and "@
        + signed_decimal(end - 73) + "\u{b0}C\nSignature: 0x"@ + digits(signature as nat, 16) + "\n"@
}

/// A fan curve profile, built in or read from a `.curvedef` file.
#[derive(Debug)]
pub struct FanProfile {
    /// Human readable curve name.
    name: String,
    /// First temperature of the table (EC encoding); lower readings clamp to it.
    start: u8,
    /// Last temperature of the table (EC encoding); higher readings clamp to it.
    end: u8,
    /// Fan speed lookup table, indexed by `temp - start`.
    lut: Vec<u8>,
    /// XXH3 signature of the defining points.
    signature: u64,
}

/// `t` clamped into `[lo, hi]`.
pub open spec fn clamp_temp(t: u8, lo: u8, hi: u8) -> u8 {
    if t < lo {
        lo
    } else if t > hi {
        hi
    } else {
        t
    }
}

impl FanProfile {
    #[verifier::type_invariant]
    spec fn well_formed(self) -> bool {
        &&& self.start <= self.end
        &&& self.lut@.len() == self.end - self.start + 1
        &&& forall|i: int| 0 <= i < self.lut@.len() ==> #[trigger] self.lut@[i] <= 100
    }

    pub closed spec fn spec_name(self) -> Seq<char> {
        self.name@
    }

    pub closed spec fn spec_start(self) -> u8 {
        self.start
    }

    pub closed spec fn spec_end(self) -> u8 {
        self.end
    }

    pub closed spec fn spec_lut(self) -> Seq<u8> {
        self.lut@
    }

    pub closed spec fn spec_signature(self) -> u64 {
        self.signature
    }

    /// The speed the profile assigns to an EC temperature.
    pub closed spec fn speed_at(self, t: u8) -> u8 {
        self.lut@[clamp_temp(t, self.start, self.end) - self.start]
    }

    /// The speed a profile gives a temperature is the table entry for that
    /// temperature inside the profile's range, the first entry below it and
    /// the last entry above it; it is never above 100 %.
    pub proof fn lemma_speed_at(self, t: u8)
        requires
            self.spec_start() <= self.spec_end(),
            self.spec_lut().len() == self.spec_end() - self.spec_start() + 1,
        ensures
            self.spec_start() <= t <= self.spec_end() ==> self.speed_at(t) == self.spec_lut()[t - self.spec_start()],
            t < self.spec_start() ==> self.speed_at(t) == self.spec_lut()[0],
            t > self.spec_end() ==> self.speed_at(t) == self.spec_lut()[self.spec_end() - self.spec_start()],
    {
    }

    /// Fan speed for a temperature: the table entry of the temperature
    /// clamped into the profile's range.
    pub fn get_fan_speed(&self, temp: ValidEcTemp) -> (speed: u8)
        ensures
            speed == self.speed_at(temp.0),
            speed == self.spec_lut()[clamp_temp(temp.0, self.spec_start(), self.spec_end())
                - self.spec_start()],
            speed <= 100,
            self.spec_start() <= temp.0 <= self.spec_end() ==> speed == self.spec_lut()[temp.0 - self.spec_start()],
            temp.0 < self.spec_start() ==> speed == self.spec_lut()[0],
            temp.0 > self.spec_end() ==> speed == self.spec_lut()[self.spec_end() - self.spec_start()],
    {
        proof {
            use_type_invariant(self);
        }
        let start: u8 = self.start;
        let end: u8 = self.end;
        let clamped: u8 = if temp.0 < start {
            start
        } else if temp.0 > end {
            end
        } else {
            temp.0
        };
        self.lut[(clamped - start) as usize]
    }

    /// Builds the profile of a curve given in °C, whose table is
    /// `generate_fan_curve_lut` of the points.
    pub fn from_celsius_points(name: &str, points: &[(u8, u8)]) -> (p: FanProfile)
        requires
            valid_curve(points@),
            points@[points@.len() - 1].0 + 73 <= 255,
        ensures
            p.spec_name() == name@,
            p.spec_start() == points@[0].0 + 73,
            p.spec_end() == points@[points@.len() - 1].0 + 73,
            p.spec_lut() == spline_lut_spec(points@),
            p.spec_signature() == xxh3_64_spec(flatten_spec(points@)),
    {
        let n: usize = points.len();
        assert(points@[0].0 < points@[n - 1].0);
        let lut: Vec<u8> = generate_fan_curve_lut(points);
        proof {
            lemma_lut_at_most_100(points@);
        }
        FanProfile {
            name: name.to_owned(),
            start: points[0].0 + 73,
            end: points[n - 1].0 + 73,
            lut,
            signature: points_signature(points),
        }
    }

    /// Builds the profile of a parsed `.curvedef` curve, whose points are
    /// already EC-encoded.
    pub fn from_parsed_curve(curve: ParsedCurve) -> (p: FanProfile)
        ensures
            p.spec_name() == curve.spec_name(),
            p.spec_start() == curve.spec_points()[0].0,
            p.spec_end() == curve.spec_points()[curve.spec_points().len() - 1].0,
            p.spec_lut() == spline_lut_spec(curve.spec_points()),
            p.spec_signature() == curve.spec_signature(),
    {
        proof {
            use_type_invariant(&curve);
        }
        let n: usize = curve.points.len();
        let lut: Vec<u8> = spline_lut(curve.points.as_slice());
        proof {
            lemma_lut_at_most_100(curve.points@);
            assert(curve.points@[0].0 < curve.points@[n - 1].0);
        }
        let start: u8 = curve.points[0].0;
        let end: u8 = curve.points[n - 1].0;
        FanProfile { name: curve.name, start, end, lut, signature: curve.signature }
    }

    /// Human readable curve name.
    pub fn name(&self) -> (s: &str)
        ensures
            s@ == self.spec_name(),
    {
        self.name.as_str()
    }

    /// First temperature of the table (EC encoding).
    pub fn start(&self) -> (t: u8)
        ensures
            t == self.spec_start(),
    {
        self.start
    }

    /// Last temperature of the table (EC encoding).
    pub fn end(&self) -> (t: u8)
        ensures
            t == self.spec_end(),
    {
        self.end
    }

    /// The lookup table.
    pub fn lut(&self) -> (l: &[u8])
        ensures
            l@ == self.spec_lut(),
            self.spec_start() <= self.spec_end(),
            l@.len() == self.spec_end() - self.spec_start() + 1,
    {
        proof {
            use_type_invariant(self);
        }
        self.lut.as_slice()
    }

    /// XXH3 signature of the defining points.
    pub fn signature(&self) -> (s: u64)
        ensures
            s == self.spec_signature(),
    {
        self.signature
    }

    /// The profile as text: name, Celsius range and signature.  The range's
    /// ends must be temperatures, not EC error codes.
    pub fn to_string(&self) -> (text: String)
        requires
            self.spec_end() < 0xFC,
        ensures
            text@ == profile_text(self.spec_name(), self.spec_start(), self.spec_end(), self.spec_signature()),
    {
        proof {
            use_type_invariant(self);
        }
        let mut out: Vec<char> = Vec::new();
        push_str(&mut out, "Fan Curve: ");
        push_str(&mut out, self.name.as_str());
        push_str(&mut out, "\nDefined between ");
        let lo: i16 = self.start as i16 - 73;
        if lo < 0 {
            out.push('-');
            push_digits(&mut out, (73 - self.start) as u64, 10);
        } else {
            out.push('+');
            push_digits(&mut out, lo as u64, 10);
        }
        push_str(&mut out, "\u{b0}C and ");
        let hi: i16 = self.end as i16 - 73;
        if hi < 0 {
            out.push('-');
            push_digits(&mut out, (73 - self.end) as u64, 10);
        } else {
            out.push('+');
            push_digits(&mut out, hi as u64, 10);
        }
        push_str(&mut out, "\u{b0}C\nSignature: 0x");
        push_digits(&mut out, self.signature, 16);
        push_str(&mut out, "\n");
        assert(out@ =~= profile_text(self.spec_name(), self.spec_start(), self.spec_end(), self.spec_signature()));
        string_from_chars(out.as_slice())
    }

    /// The profile's curve over every valid EC temperature (0..=251), as
    /// `(°C, speed)` pairs.
    pub fn curve_points(&self) -> (pts: Vec<(i16, u8)>)
        ensures
            pts@.len() == 252,
            forall|i: int|
                0 <= i < 252 ==> #[trigger] pts@[i] == ((i - 73) as i16, self.speed_at(i as u8)),
    {
        let mut pts: Vec<(i16, u8)> = Vec::new();
        let mut raw: u16 = 0;
        while raw < 252
            invariant
                raw <= 252,
                pts@.len() == raw,
                forall|i: int| 0 <= i < raw ==> #[trigger] pts@[i] == ((i - 73) as i16, self.speed_at(i as u8)),
            decreases 252 - raw,
        {
            let t: ValidEcTemp = ValidEcTemp(raw as u8);
            let c: i16 = t.to_celsius().0;
            pts.push((c, self.get_fan_speed(t)));
            raw = raw + 1;
        }
        pts
    }

    /// The table entries as `(°C, speed)` pairs.
    pub fn lut_setpoints(&self) -> (pts: Vec<(i16, u8)>)
        ensures
            pts@.len() == self.spec_lut().len(),
            forall|i: int|
                0 <= i < pts@.len() ==> #[trigger] pts@[i] == ((self.spec_start() + i - 73) as i16,
                self.spec_lut()[i]),
    {
        proof {
            use_type_invariant(self);
        }
        let mut pts: Vec<(i16, u8)> = Vec::new();
        let mut i: usize = 0;
        while i < self.lut.len()
            invariant
                self.start <= self.end,
                self.lut@.len() == self.end - self.start + 1,
                i <= self.lut@.len(),
                pts@.len() == i,
                forall|j: int| 0 <= j < i ==> #[trigger] pts@[j] == ((self.start + j - 73) as i16, self.lut@[j]),
            decreases self.lut@.len() - i,
        {
            let t: ValidEcTemp = ValidEcTemp(self.start + i as u8);
            pts.push((t.to_celsius().0, self.lut[i]));
            i = i + 1;
        }
        pts
    }
}

/// A curve read from a `.curvedef` file: a name and EC-encoded points that
/// form a valid curve.
#[derive(Debug)]
pub struct ParsedCurve {
    name: String,
    points: Vec<(u8, u8)>,
    signature: u64,
}

impl ParsedCurve {
    #[verifier::type_invariant]
    spec fn well_formed(self) -> bool {
        valid_curve(self.points@)
    }

    pub closed spec fn spec_name(self) -> Seq<char> {
        self.name@
    }

    pub closed spec fn spec_points(self) -> Seq<(u8, u8)> {
        self.points@
    }

    pub closed spec fn spec_signature(self) -> u64 {
        self.signature
    }

    pub fn new(name: String, points: Vec<(u8, u8)>, signature: u64) -> (c: ParsedCurve)
        requires
            valid_curve(points@),
        ensures
            c.spec_name() == name@,
            c.spec_points() == points@,
            c.spec_signature() == signature,
    {
        ParsedCurve { name, points, signature }
    }

    /// The curve's name.
    pub fn name(&self) -> (s: &str)
        ensures
            s@ == self.spec_name(),
    {
        self.name.as_str()
    }

    /// The curve's points, `(EC temperature, speed %)`.
    pub fn points(&self) -> (p: &[(u8, u8)])
        ensures
            p@ == self.spec_points(),
            valid_curve(p@),
    {
        proof {
            use_type_invariant(self);
        }
        self.points.as_slice()
    }

    /// XXH3 signature of the points.
    pub fn signature(&self) -> (s: u64)
        ensures
            s == self.spec_signature(),
    {
        self.signature
    }
}

/// Points (°C, speed %) of the built-in "default" profile.
pub open spec fn default_points() -> Seq<(u8, u8)> {
    seq![(25u8, 10u8), (30, 15), (45, 30), (60, 50), (75, 80), (85, 100)]
}

/// Points (°C, speed %) of the built-in "quiet" profile.
pub open spec fn quiet_points() -> Seq<(u8, u8)> {
    seq![(30u8, 10u8), (35, 15), (50, 25), (65, 40), (80, 60), (85, 80), (90, 90), (92, 100)]
}

/// Points (°C, speed %) of the built-in "performance" profile.
pub open spec fn performance_points() -> Seq<(u8, u8)> {
    seq![(25u8, 15u8), (35, 30), (50, 50), (65, 75), (80, 100)]
}

/// Points (°C, speed %) of the built-in "turbo" profile.
pub open spec fn turbo_points() -> Seq<(u8, u8)> {
    seq![(25u8, 25u8), (30, 35), (45, 50), (60, 75), (70, 100)]
}

/// Points (°C, speed %) of the built-in "deaf" profile.
pub open spec fn deaf_points() -> Seq<(u8, u8)> {
    seq![(25u8, 35u8), (30, 40), (45, 50), (60, 75), (65, 100)]
}

/// Points (°C, speed %) of the built-in "max" profile.
pub open spec fn max_points() -> Seq<(u8, u8)> {
    seq![(0u8, 99u8), (1, 100)]
}

/// A built-in profile: named, from its °C points.
pub open spec fn is_builtin(p: FanProfile, name: Seq<char>, points: Seq<(u8, u8)>) -> bool {
    &&& p.spec_name() == name
    &&& p.spec_start() == points[0].0 + 73
    &&& p.spec_end() == points[points.len() - 1].0 + 73
    &&& p.spec_lut() == spline_lut_spec(points)
    &&& p.spec_signature() == xxh3_64_spec(flatten_spec(points))
}

fn builtin_profile(name: &str, points: Vec<(u8, u8)>) -> (p: FanProfile)
    requires
        valid_curve(points@),
        points@[points@.len() - 1].0 + 73 <= 255,
    ensures
        is_builtin(p, name@, points@),
{
    FanProfile::from_celsius_points(name, points.as_slice())
}

/// The built-in profiles, in order: default, quiet, performance, turbo,
/// deaf, max.
pub fn builtin_profiles() -> (profiles: Vec<FanProfile>)
    ensures
        profiles@.len() == 6,
        is_builtin(profiles@[0], "default"@, default_points()),
        is_builtin(profiles@[1], "quiet"@, quiet_points()),
        is_builtin(profiles@[2], "performance"@, performance_points()),
        is_builtin(profiles@[3], "turbo"@, turbo_points()),
        is_builtin(profiles@[4], "deaf"@, deaf_points()),
        is_builtin(profiles@[5], "max"@, max_points()),
{
    let mut profiles: Vec<FanProfile> = Vec::new();
    let pts: Vec<(u8, u8)> = vec![(25, 10), (30, 15), (45, 30), (60, 50), (75, 80), (85, 100)];
    assert(pts@ =~= default_points());
    assert(valid_curve(pts@));
    profiles.push(builtin_profile("default", pts));
    let pts: Vec<(u8, u8)> = vec![(30, 10), (35, 15), (50, 25), (65, 40), (80, 60), (85, 80), (90, 90), (92, 100)];
    assert(pts@ =~= quiet_points());
    assert(valid_curve(pts@));
    profiles.push(builtin_profile("quiet", pts));
    let pts: Vec<(u8, u8)> = vec![(25, 15), (35, 30), (50, 50), (65, 75), (80, 100)];
    assert(pts@ =~= performance_points());
    assert(valid_curve(pts@));
    profiles.push(builtin_profile("performance", pts));
    let pts: Vec<(u8, u8)> = vec![(25, 25), (30, 35), (45, 50), (60, 75), (70, 100)];
    assert(pts@ =~= turbo_points());
    assert(valid_curve(pts@));
    profiles.push(builtin_profile("turbo", pts));
    let pts: Vec<(u8, u8)> = vec![(25, 35), (30, 40), (45, 50), (60, 75), (65, 100)];
    assert(pts@ =~= deaf_points());
    assert(valid_curve(pts@));
    profiles.push(builtin_profile("deaf", pts));
    let pts: Vec<(u8, u8)> = vec![(0, 99), (1, 100)];
    assert(pts@ =~= max_points());
    assert(valid_curve(pts@));
    profiles.push(builtin_profile("max", pts));
    profiles
}

/// The temperatures a set of profiles covers: the lowest start and the
/// highest end (EC encoding), or `None` for no profiles.
pub fn profiles_span(profiles: &[FanProfile]) -> (r: Option<(u8, u8)>)
    ensures
        profiles@.len() == 0 <==> r is None,
        r matches Some((lo, hi)) ==> {
            &&& forall|i: int| 0 <= i < profiles@.len() ==> lo <= #[trigger] profiles@[i].spec_start()
            &&& forall|i: int| 0 <= i < profiles@.len() ==> #[trigger] profiles@[i].spec_end() <= hi
            &&& exists|i: int| 0 <= i < profiles@.len() && #[trigger] profiles@[i].spec_start() == lo
            &&& exists|i: int| 0 <= i < profiles@.len() && #[trigger] profiles@[i].spec_end() == hi
        },
{
    if profiles.len() == 0 {
        return None;
    }
    let mut lo: u8 = profiles[0].start();
    let mut hi: u8 = profiles[0].end();
    let mut i: usize = 1;
    while i < profiles.len()
        invariant
            1 <= i <= profiles@.len(),
            forall|j: int| 0 <= j < i ==> lo <= #[trigger] profiles@[j].spec_start(),
            forall|j: int| 0 <= j < i ==> #[trigger] profiles@[j].spec_end() <= hi,
            exists|j: int| 0 <= j < i && #[trigger] profiles@[j].spec_start() == lo,
            exists|j: int| 0 <= j < i && #[trigger] profiles@[j].spec_end() == hi,
        decreases profiles@.len() - i,
    {
        let s: u8 = profiles[i].start();
        let e: u8 = profiles[i].end();
        if s < lo {
            lo = s;
        }
        if e > hi {
            hi = e;
        }
        i = i + 1;
    }
    Some((lo, hi))
}

/// Some profile is called `name`.
pub open spec fn has_named(profiles: Seq<FanProfile>, name: Seq<char>) -> bool {
    exists|i: int| 0 <= i < profiles.len() && #[trigger] profiles[i].spec_name() == name
}

/// `p` is the first profile called `name`.
pub open spec fn is_first_named(profiles: Seq<FanProfile>, name: Seq<char>, p: FanProfile) -> bool {
    exists|i: int|
        0 <= i < profiles.len() && profiles[i] == p && p.spec_name() == name && forall|j: int|
            0 <= j < i ==> #[trigger] profiles[j].spec_name() != name
}

/// The first profile with the given name, if any.
pub fn get_profile_by_name<'a>(name: &str, profiles: &'a [FanProfile]) -> (r: Option<&'a FanProfile>)
    ensures
        match r {
            None => !has_named(profiles@, name@),
            Some(p) => is_first_named(profiles@, name@, *p),
        },
{
    let wanted: String = name.to_owned();
    let mut i: usize = 0;
    while i < profiles.len()
        invariant
            wanted@ == name@,
            i <= profiles@.len(),
            forall|j: int| 0 <= j < i ==> #[trigger] profiles@[j].spec_name() != name@,
        decreases profiles@.len() - i,
    {
        if profiles[i].name == wanted {
            return Some(&profiles[i]);
        }
        i = i + 1;
    }
    None
}

} // verus!
