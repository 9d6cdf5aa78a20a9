use fw_fanctrl_rs::curve_lut_gen::generate_fan_curve_lut;
use fw_fanctrl_rs::fan_curve::{builtin_profiles, flatten_points, get_profile_by_name, FanProfile, ParsedCurve, profiles_span};
use fw_fanctrl_rs::temp::ValidEcTemp;

#[test]
fn builtin_profiles_in_order() {
    let profiles = builtin_profiles();
    let names: Vec<&str> = profiles.iter().map(|p| p.name()).collect();
    assert_eq!(names, vec!["default", "quiet", "performance", "turbo", "deaf", "max"]);
    let default = &profiles[0];
    assert_eq!(default.start(), 25 + 73);
    assert_eq!(default.end(), 85 + 73);
    assert_eq!(default.lut(), &generate_fan_curve_lut(&[(25, 10), (30, 15), (45, 30), (60, 50), (75, 80), (85, 100)])[..]);
    let max = &profiles[5];
    assert_eq!(max.lut(), &[99, 100]);
    // builtin signatures hash the °C points
    assert_eq!(max.signature(), xxhash_rust::xxh3::xxh3_64(&[0, 99, 1, 100]));
}

#[test]
fn get_fan_speed_clamps_to_profile_range() {
    let profiles = builtin_profiles();
    let quiet = &profiles[1];
    assert_eq!(quiet.get_fan_speed(ValidEcTemp(0)), 10);
    assert_eq!(quiet.get_fan_speed(ValidEcTemp(30 + 73)), 10);
    assert_eq!(quiet.get_fan_speed(ValidEcTemp(50 + 73)), 25);
    assert_eq!(quiet.get_fan_speed(ValidEcTemp(92 + 73)), 100);
    assert_eq!(quiet.get_fan_speed(ValidEcTemp(251)), 100);
}

#[test]
fn profile_lookup_by_name() {
    let profiles = builtin_profiles();
    assert_eq!(get_profile_by_name("turbo", &profiles).unwrap().name(), "turbo");
    assert!(get_profile_by_name("nope", &profiles).is_none());
    assert!(get_profile_by_name("Turbo", &profiles).is_none());
    let mut dup = builtin_profiles();
    dup.push(FanProfile::from_celsius_points("turbo", &[(0, 1), (1, 2)]));
    assert_eq!(get_profile_by_name("turbo", &dup).unwrap().lut().len(), 46);
}

#[test]
fn curve_points_cover_valid_range() {
    let profiles = builtin_profiles();
    let pts = profiles[0].curve_points();
    assert_eq!(pts.len(), 252);
    assert_eq!(pts[0], (-73, 10));
    assert_eq!(pts[251], (178, 100));
    assert_eq!(pts[98], (25, 10));
    let set = profiles[5].lut_setpoints();
    assert_eq!(set, vec![(0, 99), (1, 100)]);
}

#[test]
fn flatten_lays_points_out_in_order() {
    assert_eq!(flatten_points(&[(1, 2), (3, 4)]), vec![1, 2, 3, 4]);
    assert!(flatten_points(&[]).is_empty());
}

#[test]
fn profile_text_shows_range_and_signature() {
    let profiles = builtin_profiles();
    let max = &profiles[5];
    let expected = format!(
        "Fan Curve: max\nDefined between +0\u{b0}C and +1\u{b0}C\nSignature: 0x{:x}\n",
        xxhash_rust::xxh3::xxh3_64(&[0, 99, 1, 100])
    );
    assert_eq!(max.to_string(), expected);
    assert!(profiles[0].to_string().contains("Defined between +25°C and +85°C\n"));

    let curve = ParsedCurve::new("cold".to_string(), vec![(10, 5), (73, 50), (80, 60)], 0xAB);
    let p = FanProfile::from_parsed_curve(curve);
    assert_eq!(p.to_string(), "Fan Curve: cold\nDefined between -63°C and +7°C\nSignature: 0xab\n");
    let curve = ParsedCurve::new("zero".to_string(), vec![(73, 5), (74, 50)], 0);
    let p = FanProfile::from_parsed_curve(curve);
    assert_eq!(p.to_string(), "Fan Curve: zero\nDefined between +0°C and +1°C\nSignature: 0x0\n");
}

#[test]
fn span_of_profiles() {
    let profiles = builtin_profiles();
    // "max" starts at 0 °C, "quiet" ends at 92 °C
    assert_eq!(profiles_span(&profiles), Some((73, 92 + 73)));
    assert_eq!(profiles_span(&profiles[..1]), Some((25 + 73, 85 + 73)));
    assert_eq!(profiles_span(&[]), None);
}
