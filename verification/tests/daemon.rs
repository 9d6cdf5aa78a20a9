use fw_fanctrl_rs::daemon::{
    parse_fan_setting, poll_interval, profile_name_choice, select_profile,
    set_default_curve, total_lut_size, elapsed_ms, DaemonState, FanSetting, TickAction, UseOnce,
    DEFAULT_POLL_INTERVAL_MS,
};
use fw_fanctrl_rs::fan_curve::{builtin_profiles, FanProfile};
use fw_fanctrl_rs::plugins::{Decision, DecisionValue, PluginError};
use fw_fanctrl_rs::temp::ValidEcTemp;
use fw_fanctrl_rs::text::IntParseError;

fn chars(s: &str) -> Vec<char> {
    s.chars().collect()
}

fn quiet() -> FanProfile {
    builtin_profiles().remove(1)
}

#[test]
fn decide_without_plugin_uses_curve() {
    let profile = quiet();
    let mut st = DaemonState::new(false);
    assert!(!st.should_call_plugin());
    let t = ValidEcTemp(50 + 73);
    let a = st.decide(&profile, t, None, 1000);
    assert_eq!(a, TickAction { speed: profile.get_fan_speed(t), sleep_ms: 1000, dump_plugin_state: false });
    assert_eq!(a.speed, 25);
    assert!(!st.plugin_failed());
}

#[test]
fn decide_with_plugin_speed() {
    let profile = quiet();
    let mut st = DaemonState::new(true);
    assert!(st.should_call_plugin());
    let d = Decision { value: DecisionValue::SetSpeed(42), run_again_in: 250 };
    let a = st.decide(&profile, ValidEcTemp(100), Some(Ok(d)), 1000);
    assert_eq!(a, TickAction { speed: 42, sleep_ms: 250, dump_plugin_state: false });
    assert!(st.should_call_plugin());
    // run_again_in of 0 keeps the poll interval
    let d = Decision { value: DecisionValue::GetSpeedFromCurve(ValidEcTemp(92 + 73)), run_again_in: 0 };
    let a = st.decide(&profile, ValidEcTemp(0), Some(Ok(d)), 700);
    assert_eq!(a, TickAction { speed: 100, sleep_ms: 700, dump_plugin_state: false });
}

#[test]
fn decide_gives_up_on_bad_plugin() {
    let profile = quiet();
    let mut st = DaemonState::new(true);
    let d = Decision { value: DecisionValue::SetSpeed(150), run_again_in: 10 };
    let t = ValidEcTemp(30 + 73);
    let a = st.decide(&profile, t, Some(Ok(d)), 1000);
    assert_eq!(a.speed, 10);
    assert_eq!(a.sleep_ms, 10);
    assert!(st.plugin_failed());
    assert!(!st.should_call_plugin());

    let mut st = DaemonState::new(true);
    let a = st.decide(&profile, t, Some(Err(PluginError::SpeedAbove100)), 1000);
    assert_eq!(a, TickAction { speed: 10, sleep_ms: 1000, dump_plugin_state: true });
    assert!(st.plugin_failed());
    let mut other = DaemonState::new(true);
    let a = other.decide(&profile, t, Some(Err(PluginError::CallFailed)), 1000);
    assert!(a.dump_plugin_state);
    assert!(other.plugin_failed());
    // once failed, stays failed
    let a = st.decide(&profile, t, None, 1000);
    assert!(!a.dump_plugin_state);
    assert!(st.plugin_failed());
}

#[test]
fn fan_argument() {
    assert_eq!(parse_fan_setting(&chars("auto")), Ok(FanSetting::Auto));
    assert_eq!(parse_fan_setting(&chars("0")), Ok(FanSetting::Duty(0)));
    assert_eq!(parse_fan_setting(&chars("55")), Ok(FanSetting::Duty(55)));
    assert_eq!(parse_fan_setting(&chars("200")), Ok(FanSetting::Duty(100)));
    assert_eq!(parse_fan_setting(&chars("+7")), Ok(FanSetting::Duty(7)));
    assert_eq!(parse_fan_setting(&chars("256")), Err(IntParseError::PosOverflow));
    assert_eq!(parse_fan_setting(&chars("-1")), Err(IntParseError::InvalidDigit));
    assert_eq!(parse_fan_setting(&chars("")), Err(IntParseError::Empty));
    assert_eq!(parse_fan_setting(&chars("Auto")), Err(IntParseError::InvalidDigit));
}

#[test]
fn poll_interval_precedence() {
    assert_eq!(poll_interval(None, None), Some(DEFAULT_POLL_INTERVAL_MS));
    assert_eq!(poll_interval(None, Some(250)), Some(250));
    assert_eq!(poll_interval(Some(10), Some(250)), Some(10));
    assert_eq!(poll_interval(Some(10), None), Some(10));
    assert_eq!(poll_interval(Some(10), Some(0)), None);
}

#[test]
fn profile_name_precedence() {
    let cli = chars("turbo");
    let cfg = chars("quiet");
    let content = UseOnce::Content(chars("  deaf\n"));
    assert_eq!(profile_name_choice(Some(&cli), &content, Some(&cfg)), cli);
    assert_eq!(profile_name_choice(None, &content, Some(&cfg)), chars("deaf"));
    assert_eq!(profile_name_choice(None, &UseOnce::Unreadable, Some(&cfg)), chars("default"));
    assert_eq!(profile_name_choice(None, &UseOnce::Absent, Some(&cfg)), cfg);
    assert_eq!(profile_name_choice(None, &UseOnce::Absent, None), chars("default"));
}

#[test]
fn profile_selection_falls_back_to_default() {
    let profiles = builtin_profiles();
    assert_eq!(select_profile("deaf", &profiles).unwrap().name(), "deaf");
    assert_eq!(select_profile("missing", &profiles).unwrap().name(), "default");
    let only = vec![FanProfile::from_celsius_points("x", &[(0, 1), (1, 2)])];
    assert!(select_profile("missing", &only).is_none());
}

#[test]
fn use_default_rewrites_config() {
    let set = |c: &str| format!("default_curve = \"{c}\" # Set by fw-fanctrl-rs --use-default");
    let cfg = "default_curve = \"default\"\npoll_interval_ms = 1000\n";
    let out = set_default_curve(cfg, "turbo");
    assert_eq!(out, format!("{}\npoll_interval_ms = 1000\n", set("turbo")));
    // a curve chosen before, by hand or by an earlier run, is replaced too
    assert_eq!(set_default_curve("default_curve = \"quiet\"\n", "turbo"), format!("{}\n", set("turbo")));
    assert_eq!(set_default_curve(&out, "deaf"), format!("{}\npoll_interval_ms = 1000\n", set("deaf")));
    assert_eq!(set_default_curve("  default_curve=\"x\"  ", "max"), set("max"));
    // other keys, comments and configs without the key stay as they are
    let other = "# default_curve = \"x\"\ndefault_curves = 1\ndefault_curve_x = 2\npoll_interval_ms = 5";
    assert_eq!(set_default_curve(other, "turbo"), other);
    assert_eq!(set_default_curve("", "turbo"), "");
}

#[test]
fn lut_sizes_add_up() {
    let profiles = builtin_profiles();
    let expected: usize = profiles.iter().map(|p| p.lut().len()).sum();
    assert_eq!(total_lut_size(&profiles), expected);
    assert_eq!(total_lut_size(&[]), 0);
}

#[test]
fn time_since_last_poll() {
    assert_eq!(elapsed_ms((10, 0), (10, 999_999)), 0);
    assert_eq!(elapsed_ms((10, 0), (10, 1_000_000)), 1);
    assert_eq!(elapsed_ms((4, 900_000_000), (5, 100_000_000)), 200);
    assert_eq!(elapsed_ms((5, 0), (4, 0)), 0);
    assert_eq!(elapsed_ms((0, 0), (65, 535_000_000)), 65535);
    assert_eq!(elapsed_ms((0, 0), (65, 536_000_000)), 65535);
    assert_eq!(elapsed_ms((i64::MIN, 0), (i64::MAX, 999_999_999)), 65535);
}
