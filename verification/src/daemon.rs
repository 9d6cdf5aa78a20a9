//! The daemon's decisions: which profile and poll interval to use, what a
//! `--fan` argument asks for, and, on every poll, which fan speed to set
//! and how long to sleep given the hottest reading and the plugin's answer.

use vstd::prelude::*;

use crate::fan_curve::{get_profile_by_name, has_named, is_first_named, FanProfile};
use crate::plugins::{Decision, DecisionValue, PluginError};
use crate::temp::ValidEcTemp;
use crate::text::{
    find_char, index_of, lemma_index_of_bounds, parse_int, parse_u8, str_chars, string_from_chars, trim,
    trim_range, IntParseError,
};

verus! {

/// Poll interval used when neither the command line nor the config sets one.
pub const DEFAULT_POLL_INTERVAL_MS: u64 = 1000;

/// What the daemon does after one poll.
#[derive(Debug, Clone, Copy, PartialEq, Eq, Structural)]
pub struct TickAction {
    /// Fan duty to set, in percent.
    pub speed: u8,
    /// How long to sleep before the next poll.
    pub sleep_ms: u64,
    /// Whether the plugin state should be dumped for debugging.
    pub dump_plugin_state: bool,
}

/// The daemon's memory between polls: whether a plugin is loaded, and
/// whether it misbehaved (after which it is never asked again).
pub struct DaemonState {
    has_plugin: bool,
    bad_plugin: bool,
}

impl DaemonState {
    pub closed spec fn spec_has_plugin(self) -> bool {
        self.has_plugin
    }

    pub closed spec fn spec_bad_plugin(self) -> bool {
        self.bad_plugin
    }

    pub fn new(has_plugin: bool) -> (s: DaemonState)
        ensures
            s.spec_has_plugin() == has_plugin,
            !s.spec_bad_plugin(),
    {
        DaemonState { has_plugin, bad_plugin: false }
    }

    /// Whether the plugin is to be asked on this poll.
    pub fn should_call_plugin(&self) -> (b: bool)
        ensures
            b == (self.spec_has_plugin() && !self.spec_bad_plugin()),
    {
        self.has_plugin && !self.bad_plugin
    }

    /// Whether the plugin was given up on.
    pub fn plugin_failed(&self) -> (b: bool)
        ensures
            b == self.spec_bad_plugin(),
    {
        self.bad_plugin
    }

    /// Decides one poll.  `plugin` is the plugin's checked answer, or `None`
    /// when it was not asked.  The curve's speed at the hottest reading is
    /// used unless the plugin answered validly; a failing plugin is given up.
    pub fn decide(
        &mut self,
        profile: &FanProfile,
        max_temp: ValidEcTemp,
        plugin: Option<Result<Decision<ValidEcTemp>, PluginError>>,
        poll_interval_ms: u64,
    ) -> (a: TickAction)
        ensures
            final(self).spec_has_plugin() == old(self).spec_has_plugin(),
            old(self).spec_bad_plugin() ==> final(self).spec_bad_plugin(),
            a.speed <= 100,
            match plugin {
                None => a == (TickAction {
                    speed: profile.speed_at(max_temp.0),
                    sleep_ms: poll_interval_ms,
                    dump_plugin_state: false,
                }) && final(self).spec_bad_plugin() == old(self).spec_bad_plugin(),
                Some(Err(_)) => a == (TickAction {
                    speed: profile.speed_at(max_temp.0),
                    sleep_ms: poll_interval_ms,
                    dump_plugin_state: true,
                }) && final(self).spec_bad_plugin(),
                Some(Ok(d)) => {
                    &&& a.sleep_ms == (if d.run_again_in == 0 {
                        poll_interval_ms
                    } else {
                        d.run_again_in as u64
                    })
                    &&& !a.dump_plugin_state
                    &&& match d.value {
                        DecisionValue::SetSpeed(s) => if s > 100 {
                            a.speed == profile.speed_at(max_temp.0) && final(self).spec_bad_plugin()
                        } else {
                            a.speed == s && final(self).spec_bad_plugin() == old(self).spec_bad_plugin()
                        },
                        DecisionValue::GetSpeedFromCurve(t) => a.speed == profile.speed_at(t.0)
                            && final(self).spec_bad_plugin() == old(self).spec_bad_plugin(),
                    }
                },
            },
    {
        let lut_speed: u8 = profile.get_fan_speed(max_temp);
        match plugin {
            None => TickAction { speed: lut_speed, sleep_ms: poll_interval_ms, dump_plugin_state: false },
            Some(Err(_)) => {
                self.bad_plugin = true;
                TickAction { speed: lut_speed, sleep_ms: poll_interval_ms, dump_plugin_state: true }
            },
            Some(Ok(d)) => {
                let sleep_ms: u64 = if d.run_again_in == 0 {
                    poll_interval_ms
                } else {
                    d.run_again_in as u64
                };
                let speed: u8 = match d.value {
                    DecisionValue::SetSpeed(s) => {
                        if s > 100 {
                            self.bad_plugin = true;
                            lut_speed
                        } else {
                            s
                        }
                    },
                    DecisionValue::GetSpeedFromCurve(t) => profile.get_fan_speed(t),
                };
                TickAction { speed, sleep_ms, dump_plugin_state: false }
            },
        }
    }
}

/// Nanoseconds from `earlier` to `later`, each given as (seconds, nanoseconds).
pub open spec fn elapsed_ns(earlier: (i64, i64), later: (i64, i64)) -> int {
    (later.0 - earlier.0) * 1_000_000_000 + (later.1 - earlier.1)
}

/// Whole milliseconds from `earlier` to `later`, kept within `0..=u16::MAX`.
pub open spec fn elapsed_ms_spec(earlier: (i64, i64), later: (i64, i64)) -> u16 {
    let ns = elapsed_ns(earlier, later);
    if ns <= 0 {
        0
    } else if ns / 1_000_000 > 65535 {
        65535
    } else {
        (ns / 1_000_000) as u16
    }
}

/// Time since the last poll, as handed to plugins: whole milliseconds from
/// `earlier` to `later` (monotonic clock readings as seconds and
/// nanoseconds), 0 if `later` is not after `earlier`, at most 65535.
pub fn elapsed_ms(earlier: (i64, i64), later: (i64, i64)) -> (ms: u16)
    ensures
        ms == elapsed_ms_spec(earlier, later),
{
    let ds: i128 = later.0 as i128 - earlier.0 as i128;
    let dn: i128 = later.1 as i128 - earlier.1 as i128;
    assert(-0x1_0000_0000_0000_0000 <= ds <= 0x1_0000_0000_0000_0000);
    assert(-1_000_000_000 * 0x1_0000_0000_0000_0000 <= ds * 1_000_000_000 <= 1_000_000_000
        * 0x1_0000_0000_0000_0000) by (nonlinear_arith)
        requires
            -0x1_0000_0000_0000_0000 <= ds <= 0x1_0000_0000_0000_0000,
    ;
    let ns: i128 = ds * 1_000_000_000 + dn;
    assert(ns == elapsed_ns(earlier, later));
    if ns <= 0 {
        0
    } else {
        let ms: i128 = ns / 1_000_000;
        if ms > 65535 {
            65535
        } else {
            ms as u16
        }
    }
}

/// What a `--fan` argument asks for.
#[derive(Debug, Clone, Copy, PartialEq, Eq, Structural)]
pub enum FanSetting {
    /// Hand fan control back to the EC.
    Auto,
    /// A fixed duty, in percent.
    Duty(u8),
}

pub open spec fn is_auto(s: Seq<char>) -> bool {
    s == seq!['a', 'u', 't', 'o']
}

/// Reads a `--fan` argument: `auto`, or a `u8` duty clamped to at most 100.
pub fn parse_fan_setting(arg: &[char]) -> (r: Result<FanSetting, IntParseError>)
    ensures
        is_auto(arg@) ==> r == Ok::<FanSetting, IntParseError>(FanSetting::Auto),
        !is_auto(arg@) ==> match parse_int(arg@, false, 0, 255) {
            Ok(v) => r == Ok::<FanSetting, IntParseError>(
                FanSetting::Duty(if v > 100 { 100u8 } else { v as u8 }),
            ),
            Err(e) => r == Err::<FanSetting, IntParseError>(e),
        },
{
    if arg.len() == 4 && arg[0] == 'a' && arg[1] == 'u' && arg[2] == 't' && arg[3] == 'o' {
        assert(arg@ =~= seq!['a', 'u', 't', 'o']);
        return Ok(FanSetting::Auto);
    }
    match parse_u8(arg) {
        Ok(v) => Ok(FanSetting::Duty(if v > 100 { 100 } else { v })),
        Err(e) => Err(e),
    }
}

/// Poll interval: the command line's, else the config's, else 1000 ms.
/// `None` when the config asks for 0 ms, which the daemon refuses.
pub fn poll_interval(cli_ms: Option<u64>, config_ms: Option<u64>) -> (r: Option<u64>)
    requires
        cli_ms matches Some(c) ==> c > 0,
    ensures
        config_ms == Some(0u64) ==> r is None,
        config_ms != Some(0u64) ==> r == Some(
            match cli_ms {
                Some(c) => c,
                None => match config_ms {
                    Some(c) => c,
                    None => DEFAULT_POLL_INTERVAL_MS,
                },
            },
        ),
{
    if let Some(c) = config_ms {
        if c == 0 {
            return None;
        }
    }
    match cli_ms {
        Some(c) => Some(c),
        None => match config_ms {
            Some(c) => Some(c),
            None => Some(DEFAULT_POLL_INTERVAL_MS),
        },
    }
}

/// The state of the one-shot profile file.
pub enum UseOnce {
    /// There is no such file.
    Absent,
    /// The file exists but could not be read.
    Unreadable,
    /// The file's content.
    Content(Vec<char>),
}

pub open spec fn default_name() -> Seq<char> {
    seq!['d', 'e', 'f', 'a', 'u', 'l', 't']
}

/// Name of the profile to use: the command line's; else the one-shot
/// file's trimmed content ("default" if unreadable); else the config's
/// default; else "default".
pub fn profile_name_choice(cli: Option<&[char]>, use_once: &UseOnce, config_default: Option<&[char]>) -> (name: Vec<char>)
    ensures
        name@ == match cli {
            Some(c) => c@,
            None => match use_once {
                UseOnce::Content(v) => trim(v@),
                UseOnce::Unreadable => default_name(),
                UseOnce::Absent => match config_default {
                    Some(d) => d@,
                    None => default_name(),
                },
            },
        },
{
    match cli {
        Some(c) => copy_chars(c, 0, c.len()),
        None => match use_once {
            UseOnce::Content(v) => {
                let (a, b) = trim_range(v.as_slice(), 0, v.len());
                assert(v@.subrange(0, v@.len() as int) =~= v@);
                copy_chars(v.as_slice(), a, b)
            },
            UseOnce::Unreadable => default_chars(),
            UseOnce::Absent => match config_default {
                Some(d) => copy_chars(d, 0, d.len()),
                None => default_chars(),
            },
        },
    }
}

fn default_chars() -> (v: Vec<char>)
    ensures
        v@ == default_name(),
{
    let v: Vec<char> = vec!['d', 'e', 'f', 'a', 'u', 'l', 't'];
    assert(v@ =~= default_name());
    v
}

fn copy_chars(s: &[char], lo: usize, hi: usize) -> (v: Vec<char>)
    requires
        lo <= hi <= s@.len(),
    ensures
        v@ == s@.subrange(lo as int, hi as int),
{
    let mut v: Vec<char> = Vec::new();
    let mut i: usize = lo;
    while i < hi
        invariant
            lo <= i <= hi <= s@.len(),
            v@ == s@.subrange(lo as int, i as int),
        decreases hi - i,
    {
        v.push(s[i]);
        i = i + 1;
        assert(v@ =~= s@.subrange(lo as int, i as int));
    }
    v
}

/// The profile called `name`, falling back to the one called "default".
pub fn select_profile<'a>(name: &str, profiles: &'a [FanProfile]) -> (r: Option<&'a FanProfile>)
    ensures
        has_named(profiles@, name@) ==> (r matches Some(p) && is_first_named(profiles@, name@, *p)),
        !has_named(profiles@, name@) ==> match r {
            Some(p) => is_first_named(profiles@, "default"@, *p),
            None => !has_named(profiles@, "default"@),
        },
{
    match get_profile_by_name(name, profiles) {
        Some(p) => Some(p),
        None => get_profile_by_name("default", profiles),
    }
}


/// The config key that names the default curve.
pub open spec fn default_curve_key() -> Seq<char> {
    seq!['d', 'e', 'f', 'a', 'u', 'l', 't', '_', 'c', 'u', 'r', 'v', 'e']
}

/// A config line that sets the default curve: after trimming, the key
/// `default_curve` followed (after optional whitespace) by `=`.
pub open spec fn is_default_curve_line(line: Seq<char>) -> bool {
    let t = trim(line);
    let after = trim(t.subrange(13, t.len() as int));
    &&& t.len() >= 13
    &&& t.subrange(0, 13) == default_curve_key()
    &&& after.len() > 0
    &&& after[0] == '='
}

/// The config line that makes `curve` the default curve.
pub open spec fn new_default_curve_line(curve: Seq<char>) -> Seq<char> {
    "default_curve = \""@ + curve + "\" # Set by fw-fanctrl-rs --use-default"@
}

/// `s` with every line that sets the default curve replaced by `rep`; all
/// other lines, and the line breaks, are kept.
pub open spec fn rewrite_default_curve(s: Seq<char>, rep: Seq<char>) -> Seq<char>
    decreases s.len(),
{
    let e = index_of(s, '\n');
    let line = s.subrange(0, e);
    let new_line = if is_default_curve_line(line) { rep } else { line };
    if e >= s.len() {
        new_line
    } else {
        proof {
            lemma_index_of_bounds(s, '\n');
        }
        new_line + seq!['\n'] + rewrite_default_curve(s.subrange(e + 1, s.len() as int), rep)
    }
}

/// Some line of `s` sets the default curve.
pub open spec fn has_default_curve_line(s: Seq<char>) -> bool
    decreases s.len(),
{
    let e = index_of(s, '\n');
    ||| is_default_curve_line(s.subrange(0, e))
    ||| (0 <= e < s.len() && has_default_curve_line(s.subrange(e + 1, s.len() as int)))
}

/// Every line of `s` that sets the default curve is `rep`.
pub open spec fn default_curve_lines_are(s: Seq<char>, rep: Seq<char>) -> bool
    decreases s.len(),
{
    let e = index_of(s, '\n');
    &&& is_default_curve_line(s.subrange(0, e)) ==> s.subrange(0, e) == rep
    &&& (0 <= e < s.len() ==> default_curve_lines_are(s.subrange(e + 1, s.len() as int), rep))
}

/// `l` is one of the lines of `s`.
pub open spec fn has_line(s: Seq<char>, l: Seq<char>) -> bool
    decreases s.len(),
{
    let e = index_of(s, '\n');
    ||| s.subrange(0, e) == l
    ||| (0 <= e < s.len() && has_line(s.subrange(e + 1, s.len() as int), l))
}

/// The first line of `a + "\n" + b`, for `a` without line breaks, is `a`.
proof fn lemma_first_line(a: Seq<char>, b: Seq<char>)
    requires
        forall|i: int| 0 <= i < a.len() ==> a[i] != '\n',
    ensures
        index_of(a + seq!['\n'] + b, '\n') == a.len(),
        (a + seq!['\n'] + b).subrange(0, a.len() as int) == a,
        (a + seq!['\n'] + b).subrange(a.len() as int + 1, (a + seq!['\n'] + b).len() as int) == b,
{
    let s = a + seq!['\n'] + b;
    lemma_index_of_bounds(s, '\n');
    let e = index_of(s, '\n');
    if e < a.len() {
        assert(s[e] == a[e]);
    }
    assert(s[a.len() as int] == '\n');
    assert(s.subrange(0, a.len() as int) =~= a);
    assert(s.subrange(a.len() as int + 1, s.len() as int) =~= b);
}

/// A string without line breaks is a single line.
proof fn lemma_single_line(a: Seq<char>)
    requires
        forall|i: int| 0 <= i < a.len() ==> a[i] != '\n',
    ensures
        index_of(a, '\n') == a.len(),
        a.subrange(0, a.len() as int) == a,
{
    lemma_index_of_bounds(a, '\n');
    if index_of(a, '\n') < a.len() {
        assert(a[index_of(a, '\n')] == '\n');
    }
    assert(a.subrange(0, a.len() as int) =~= a);
}

/// A text without a line that sets the default curve is left as it was.
proof fn lemma_rewrite_keeps_other_text(s: Seq<char>, rep: Seq<char>)
    requires
        !has_default_curve_line(s),
    ensures
        rewrite_default_curve(s, rep) == s,
    decreases s.len(),
{
    lemma_index_of_bounds(s, '\n');
    let e = index_of(s, '\n');
    if e >= s.len() {
        assert(s.subrange(0, e) =~= s);
    } else {
        let rest = s.subrange(e + 1, s.len() as int);
        lemma_rewrite_keeps_other_text(rest, rep);
        assert(s =~= s.subrange(0, e) + seq!['\n'] + rest);
    }
}

/// After the rewrite every line that sets the default curve is `rep`, and
/// `rep` is a line wherever the input had such a line.
proof fn lemma_rewrite_default_curve(s: Seq<char>, rep: Seq<char>)
    requires
        forall|i: int| 0 <= i < rep.len() ==> rep[i] != '\n',
    ensures
        default_curve_lines_are(rewrite_default_curve(s, rep), rep),
        has_default_curve_line(s) ==> has_line(rewrite_default_curve(s, rep), rep),
    decreases s.len(),
{
    lemma_index_of_bounds(s, '\n');
    let e = index_of(s, '\n');
    let line = s.subrange(0, e);
    let new_line = if is_default_curve_line(line) { rep } else { line };
    assert forall|i: int| 0 <= i < line.len() implies line[i] != '\n' by {
        assert(line[i] == s[i]);
    }
    let r = rewrite_default_curve(s, rep);
    if e >= s.len() {
        lemma_single_line(new_line);
        assert(s.subrange(0, e) =~= s);
    } else {
        let rest = s.subrange(e + 1, s.len() as int);
        lemma_rewrite_default_curve(rest, rep);
        lemma_first_line(new_line, rewrite_default_curve(rest, rep));
    }
}

/// The number of lines of `s` (separated by `\n`; an empty text is one
/// empty line).
pub open spec fn line_count(s: Seq<char>) -> nat
    decreases s.len(),
{
    let e = index_of(s, '\n');
    if 0 <= e < s.len() {
        1 + line_count(s.subrange(e + 1, s.len() as int))
    } else {
        1
    }
}

/// Line `k` of `s`, counting from 0.
pub open spec fn nth_line(s: Seq<char>, k: nat) -> Seq<char>
    decreases s.len(),
{
    let e = index_of(s, '\n');
    if k == 0 {
        s.subrange(0, e)
    } else if 0 <= e < s.len() {
        nth_line(s.subrange(e + 1, s.len() as int), (k - 1) as nat)
    } else {
        Seq::empty()
    }
}

/// The rewrite keeps every line in its place: the text has as many lines as
/// before, each line that sets the default curve is now `rep`, and every
/// other line is as it was.
pub proof fn lemma_rewrite_keeps_lines(s: Seq<char>, rep: Seq<char>)
    requires
        forall|i: int| 0 <= i < rep.len() ==> rep[i] != '\n',
    ensures
        line_count(rewrite_default_curve(s, rep)) == line_count(s),
        forall|k: nat|
            k < line_count(s) ==> #[trigger] nth_line(rewrite_default_curve(s, rep), k) == if is_default_curve_line(
                nth_line(s, k),
            ) {
                rep
            } else {
                nth_line(s, k)
            },
    decreases s.len(),
{
    lemma_index_of_bounds(s, '\n');
    let e = index_of(s, '\n');
    let line = s.subrange(0, e);
    let new_line = if is_default_curve_line(line) { rep } else { line };
    assert forall|i: int| 0 <= i < line.len() implies line[i] != '\n' by {
        assert(line[i] == s[i]);
    }
    let r = rewrite_default_curve(s, rep);
    if e >= s.len() {
        lemma_single_line(new_line);
        assert forall|k: nat| k < line_count(s) implies #[trigger] nth_line(r, k) == if is_default_curve_line(
            nth_line(s, k),
        ) {
            rep
        } else {
            nth_line(s, k)
        } by {
            assert(k == 0);
        }
    } else {
        let rest = s.subrange(e + 1, s.len() as int);
        let rr = rewrite_default_curve(rest, rep);
        lemma_rewrite_keeps_lines(rest, rep);
        lemma_first_line(new_line, rr);
        assert(r == new_line + seq!['\n'] + rr);
        assert forall|k: nat| k < line_count(s) implies #[trigger] nth_line(r, k) == if is_default_curve_line(
            nth_line(s, k),
        ) {
            rep
        } else {
            nth_line(s, k)
        } by {
            if k > 0 {
                assert(nth_line(r, k) == nth_line(rr, (k - 1) as nat));
                assert(nth_line(s, k) == nth_line(rest, (k - 1) as nat));
            }
        }
    }
}

fn append_range(out: &mut Vec<char>, s: &[char], lo: usize, hi: usize)
    requires
        lo <= hi <= s@.len(),
    ensures
        final(out)@ == old(out)@ + s@.subrange(lo as int, hi as int),
{
    let mut i: usize = lo;
    while i < hi
        invariant
            lo <= i <= hi <= s@.len(),
            out@ == old(out)@ + s@.subrange(lo as int, i as int),
        decreases hi - i,
    {
        out.push(s[i]);
        i = i + 1;
        assert(out@ =~= old(out)@ + s@.subrange(lo as int, i as int));
    }
}

fn is_default_curve_line_exec(s: &[char], lo: usize, hi: usize) -> (b: bool)
    requires
        lo <= hi <= s@.len(),
    ensures
        b == is_default_curve_line(s@.subrange(lo as int, hi as int)),
{
    let ghost line = s@.subrange(lo as int, hi as int);
    let (a, b) = trim_range(s, lo, hi);
    let ghost t = s@.subrange(a as int, b as int);
    if b - a < 13 {
        return false;
    }
    let key: Vec<char> = vec!['d', 'e', 'f', 'a', 'u', 'l', 't', '_', 'c', 'u', 'r', 'v', 'e'];
    assert(key@ =~= default_curve_key());
    let mut k: usize = 0;
    while k < 13
        invariant
            k <= 13,
            a + 13 <= b <= s@.len(),
            t == s@.subrange(a as int, b as int),
            t == trim(line),
            line == s@.subrange(lo as int, hi as int),
            key@ == default_curve_key(),
            forall|j: int| 0 <= j < k ==> s@[a + j] == key@[j],
        decreases 13 - k,
    {
        if s[a + k] != key[k] {
            assert(t.subrange(0, 13)[k as int] != default_curve_key()[k as int]);
            return false;
        }
        k = k + 1;
    }
    assert(t.subrange(0, 13) =~= default_curve_key());
    let (c, d) = trim_range(s, a + 13, b);
    assert(t.subrange(13, t.len() as int) =~= s@.subrange(a + 13, b as int));
    c < d && s[c] == '='
}

/// The config text with every line that sets the default curve replaced by
/// one that selects `new_curve`.  Every default-curve line of the result
/// names `new_curve`, one does wherever the config set a default curve, and
/// a config that sets none comes back unchanged.
pub fn set_default_curve(config: &str, new_curve: &str) -> (out: String)
    ensures
        out@ == rewrite_default_curve(config@, new_default_curve_line(new_curve@)),
        (forall|i: int| 0 <= i < new_curve@.len() ==> new_curve@[i] != '\n') ==> {
            &&& default_curve_lines_are(out@, new_default_curve_line(new_curve@))
            &&& has_default_curve_line(config@) ==> has_line(out@, new_default_curve_line(new_curve@))
            &&& line_count(out@) == line_count(config@)
            &&& forall|k: nat|
                k < line_count(config@) ==> #[trigger] nth_line(out@, k) == if is_default_curve_line(
                    nth_line(config@, k),
                ) {
                    new_default_curve_line(new_curve@)
                } else {
                    nth_line(config@, k)
                }
        },
        !has_default_curve_line(config@) ==> out@ == config@,
{
    let mut rep: Vec<char> = str_chars("default_curve = \"");
    let curve: Vec<char> = str_chars(new_curve);
    let tail: Vec<char> = str_chars("\" # Set by fw-fanctrl-rs --use-default");
    let ghost r0 = rep@;
    append_range(&mut rep, curve.as_slice(), 0, curve.len());
    append_range(&mut rep, tail.as_slice(), 0, tail.len());
    assert(curve@.subrange(0, curve@.len() as int) =~= curve@);
    assert(tail@.subrange(0, tail@.len() as int) =~= tail@);
    assert(rep@ =~= new_default_curve_line(new_curve@));
    let ghost rs = rep@;
    let cs: Vec<char> = str_chars(config);
    let n: usize = cs.len();
    let mut out: Vec<char> = Vec::new();
    let mut i: usize = 0;
    let mut done: bool = false;
    assert(cs@.subrange(0, n as int) =~= cs@);
    assert(out@ + cs@.subrange(0, n as int) =~= cs@.subrange(0, n as int));
    while !done
        invariant
            n == cs@.len(),
            i <= n,
            rep@ == rs,
            done ==> out@ == rewrite_default_curve(cs@, rs),
            !done ==> out@ + rewrite_default_curve(cs@.subrange(i as int, n as int), rs)
                == rewrite_default_curve(cs@, rs),
        decreases (if done { 0 } else { n + 1 - i }),
    {
        let ghost cur = cs@.subrange(i as int, n as int);
        let e: usize = find_char(cs.as_slice(), i, n, '\n');
        proof {
            lemma_index_of_bounds(cur, '\n');
        }
        assert(cur.subrange(0, e - i) =~= cs@.subrange(i as int, e as int));
        let ghost before = out@;
        if is_default_curve_line_exec(cs.as_slice(), i, e) {
            append_range(&mut out, rep.as_slice(), 0, rep.len());
            assert(rep@.subrange(0, rep@.len() as int) =~= rep@);
        } else {
            append_range(&mut out, cs.as_slice(), i, e);
        }
        if e == n {
            done = true;
        } else {
            out.push('\n');
            assert(cur.subrange(e - i + 1, cur.len() as int) =~= cs@.subrange(e + 1, n as int));
            assert(out@ + rewrite_default_curve(cs@.subrange(e + 1, n as int), rs) =~= before
                + rewrite_default_curve(cur, rs));
            i = e + 1;
        }
    }
    proof {
        reveal_strlit("default_curve = \"");
        reveal_strlit("\" # Set by fw-fanctrl-rs --use-default");
        if forall|i: int| 0 <= i < new_curve@.len() ==> new_curve@[i] != '\n' {
            assert forall|i: int| 0 <= i < rs.len() implies rs[i] != '\n' by {
                if i >= 17 && i < 17 + new_curve@.len() {
                    assert(rs[i] == new_curve@[i - 17]);
                }
            }
            lemma_rewrite_default_curve(cs@, rs);
            lemma_rewrite_keeps_lines(cs@, rs);
        }
        if !has_default_curve_line(cs@) {
            lemma_rewrite_keeps_other_text(cs@, rs);
        }
    }
    string_from_chars(out.as_slice())
}

/// Sum of the profiles' table lengths.
pub open spec fn lut_total(profiles: Seq<FanProfile>) -> int
    decreases profiles.len(),
{
    if profiles.len() == 0 {
        0
    } else {
        lut_total(profiles.drop_last()) + profiles.last().spec_lut().len()
    }
}

/// Total number of table entries over the given profiles.
pub fn total_lut_size(profiles: &[FanProfile]) -> (n: usize)
    requires
        profiles@.len() <= usize::MAX / 256,
    ensures
        n == lut_total(profiles@),
{
    let mut total: usize = 0;
    let mut i: usize = 0;
    while i < profiles.len()
        invariant
            i <= profiles@.len() <= usize::MAX / 256,
            total == lut_total(profiles@.take(i as int)),
            total <= 256 * i,
        decreases profiles@.len() - i,
    {
        let l: usize = profiles[i].lut().len();
        assert(256 * (i + 1) <= usize::MAX) by (nonlinear_arith)
            requires
                i < profiles@.len() <= usize::MAX / 256,
        ;
        assert(profiles@.take(i as int + 1).drop_last() =~= profiles@.take(i as int));
        total = total + l;
        i = i + 1;
    }
    assert(profiles@.take(i as int) =~= profiles@);
    total
}

} // verus!
