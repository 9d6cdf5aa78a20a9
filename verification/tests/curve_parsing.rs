use fw_fanctrl_rs::curve_parsing::{finish_curve, squash_lines, CurveDefError};
use fw_fanctrl_rs::fan_curve::{points_signature, FanProfile, ParsedCurve};

fn lines(text: &str) -> Vec<Vec<char>> {
    text.lines().map(|l| l.chars().collect()).collect()
}

fn squash(text: &str) -> Result<ParsedCurve, CurveDefError> {
    finish_curve(squash_lines(&lines(text))?)
}

const EXAMPLE: &str = "# An example fan curve\n\
ExampleCurve\n\
\n\
# temp (C), pwm (%)\n\
-10, 10\n\
10,15\n\
  11 , 17   # a comment\n\
60,50\n\
70,100\n\
100,100\n";

#[test]
fn test_squash_curvedef() {
    let curve = squash(EXAMPLE).unwrap();
    assert_eq!(curve.name(), "ExampleCurve");
    assert_eq!(curve.points().len(), 6);
    // Points are stored as (EC-encoded temp, pwm). EC = celsius + 73.
    assert_eq!(curve.points()[0], (63, 10)); // -10°C
    assert_eq!(curve.points()[1], (83, 15)); //  10°C
    assert_eq!(curve.points()[2], (84, 17)); //  11°C
    assert_eq!(curve.points()[3], (133, 50)); //  60°C
    assert_eq!(curve.points()[4], (143, 100)); //  70°C
    assert_eq!(curve.points()[5], (173, 100)); // 100°C
}

#[test]
fn signature_is_xxh3_of_flattened_points() {
    let curve = squash(EXAMPLE).unwrap();
    let flat: Vec<u8> = curve.points().iter().flat_map(|&(x, y)| [x, y]).collect();
    assert_eq!(curve.signature(), xxhash_rust::xxh3::xxh3_64(&flat));
    assert_eq!(curve.signature(), points_signature(curve.points()));
    // the wrapper does not hand back its input or a constant
    assert_ne!(points_signature(&[(1, 2)]), points_signature(&[(2, 1)]));
}

#[test]
fn name_is_first_meaningful_line_trimmed() {
    let curve = squash("\n  # c\n \u{a0} My Curve \t\n0,0\n10,100\n").unwrap();
    assert_eq!(curve.name(), "My Curve");
    assert_eq!(curve.points(), &[(73, 0), (83, 100)]);
}

#[test]
fn extra_fields_are_ignored_and_plus_sign_accepted() {
    let curve = squash("n\n+5,+10,junk\n6,20\n").unwrap();
    assert_eq!(curve.points(), &[(78, 10), (79, 20)]);
}

#[test]
fn each_error_kind() {
    assert_eq!(squash("n\nabc,10\n").unwrap_err(), CurveDefError::InvalidTemperature { line: 1 });
    assert_eq!(squash("n\n,10\n").unwrap_err(), CurveDefError::InvalidTemperature { line: 1 });
    assert_eq!(squash("n\n99999,10\n").unwrap_err(), CurveDefError::InvalidTemperature { line: 1 });
    assert_eq!(
        squash("n\n\n-74,10\n").unwrap_err(),
        CurveDefError::TemperatureOutOfRange { temp: -74, line: 2 }
    );
    assert_eq!(
        squash("n\n183,10\n").unwrap_err(),
        CurveDefError::TemperatureOutOfRange { temp: 183, line: 1 }
    );
    assert_eq!(
        squash("n\n179,10\n").unwrap_err(),
        CurveDefError::NonsensicalTemperature { temp: 179, line: 1 }
    );
    assert_eq!(squash("n\n20\n").unwrap_err(), CurveDefError::MissingPwm { line: 1 });
    assert_eq!(squash("n\n20,-1\n").unwrap_err(), CurveDefError::InvalidPwm { line: 1 });
    assert_eq!(squash("n\n20,256\n").unwrap_err(), CurveDefError::InvalidPwm { line: 1 });
    assert_eq!(squash("n\n20,10\n").unwrap_err(), CurveDefError::TooFewPoints);
    assert_eq!(squash("").unwrap_err(), CurveDefError::TooFewPoints);
    assert_eq!(squash("n\n20,10\n20,30\n").unwrap_err(), CurveDefError::NotIncreasing);
    assert_eq!(squash("n\n20,10\n30,101\n").unwrap_err(), CurveDefError::SpeedAbove100);
}

#[test]
fn first_bad_line_wins() {
    assert_eq!(
        squash("n\nx,1\n20\n").unwrap_err(),
        CurveDefError::InvalidTemperature { line: 1 }
    );
}

#[test]
fn parsed_curve_becomes_profile() {
    let curve = squash(EXAMPLE).unwrap();
    let sig = curve.signature();
    let profile = FanProfile::from_parsed_curve(curve);
    assert_eq!(profile.name(), "ExampleCurve");
    assert_eq!(profile.start(), 63);
    assert_eq!(profile.end(), 173);
    assert_eq!(profile.lut().len(), 111);
    assert_eq!(profile.signature(), sig);
    assert_eq!(profile.get_fan_speed(fw_fanctrl_rs::temp::ValidEcTemp(63)), 10);
    assert_eq!(profile.get_fan_speed(fw_fanctrl_rs::temp::ValidEcTemp(0)), 10);
    assert_eq!(profile.get_fan_speed(fw_fanctrl_rs::temp::ValidEcTemp(200)), 100);
}

#[test]
fn error_messages() {
    assert_eq!(CurveDefError::InvalidTemperature { line: 3 }.message(), "Invalid temperature on line 3");
    assert_eq!(
        CurveDefError::TemperatureOutOfRange { temp: -100, line: 12 }.message(),
        "Temperature -100 out of EC range on line 12"
    );
    assert_eq!(
        CurveDefError::NonsensicalTemperature { temp: 180, line: 0 }.message(),
        "Nonsensical temperature 180 on line 0"
    );
    assert_eq!(
        CurveDefError::TemperatureOutOfRange { temp: i16::MIN, line: 1 }.message(),
        "Temperature -32768 out of EC range on line 1"
    );
    assert_eq!(CurveDefError::MissingPwm { line: 7 }.message(), "Missing PWM on line 7");
    assert_eq!(CurveDefError::InvalidPwm { line: 10 }.message(), "Invalid PWM on line 10");
    assert_eq!(CurveDefError::TooFewPoints.message(), "At least two points (start and end) are required");
    assert_eq!(CurveDefError::NotIncreasing.message(), "Curve X coordinates must be strictly increasing");
    assert_eq!(CurveDefError::SpeedAbove100.message(), "Intermediate Y must be <= 100");
    assert_eq!(CurveDefError::NoName.message(), "No name found... somehow");
}

#[test]
fn name_line_drops_its_comment() {
    let c = squash("MyCurve # my comment\n10,20\n50,80\n").unwrap();
    assert_eq!(c.name(), "MyCurve");
    assert_eq!(c.points(), &[(83, 20), (123, 80)]);
    let c = squash("  Tight#x\n10,20\n50,80\n").unwrap();
    assert_eq!(c.name(), "Tight");
}
