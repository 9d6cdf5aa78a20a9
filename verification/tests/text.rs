use fw_fanctrl_rs::text::{parse_i16, parse_u8, str_chars, trim_range, IntParseError};

fn c(s: &str) -> Vec<char> {
    s.chars().collect()
}

#[test]
fn integers_parse_like_std() {
    for s in ["0", "42", "-42", "+7", "-", "+", "", "12a", "32767", "32768", "-32768", "-32769", "007", " 1", "99999x"] {
        let expected = s.parse::<i16>().map_err(|e| e.kind().clone());
        let got = parse_i16(&c(s)).map_err(|e| match e {
            IntParseError::Empty => std::num::IntErrorKind::Empty,
            IntParseError::InvalidDigit => std::num::IntErrorKind::InvalidDigit,
            IntParseError::PosOverflow => std::num::IntErrorKind::PosOverflow,
            IntParseError::NegOverflow => std::num::IntErrorKind::NegOverflow,
        });
        assert_eq!(got, expected, "{s:?}");
    }
    for s in ["0", "255", "256", "-0", "-1", "+9", "", "1x", "1000"] {
        let expected = s.parse::<u8>().map_err(|e| e.kind().clone());
        let got = parse_u8(&c(s)).map_err(|e| match e {
            IntParseError::Empty => std::num::IntErrorKind::Empty,
            IntParseError::InvalidDigit => std::num::IntErrorKind::InvalidDigit,
            IntParseError::PosOverflow => std::num::IntErrorKind::PosOverflow,
            IntParseError::NegOverflow => std::num::IntErrorKind::NegOverflow,
        });
        assert_eq!(got, expected, "{s:?}");
    }
}

#[test]
fn trim_matches_std() {
    for s in ["", "   ", " a ", "\u{3000}x y\u{2029}", "\t\n\r x", "abc"] {
        let chars = c(s);
        let (a, b) = trim_range(&chars, 0, chars.len());
        let got: String = chars[a..b].iter().collect();
        assert_eq!(got, s.trim());
    }
}

#[test]
fn str_chars_collects() {
    assert_eq!(str_chars("hé!"), vec!['h', 'é', '!']);
}

#[test]
fn parse_errors_read_like_std() {
    for (text, e) in [("", IntParseError::Empty), ("x", IntParseError::InvalidDigit), ("300", IntParseError::PosOverflow)] {
        assert_eq!(parse_u8(&text.chars().collect::<Vec<_>>()), Err(e));
        assert_eq!(e.description(), text.parse::<u8>().unwrap_err().to_string());
    }
    let neg = "-40000".parse::<i16>().unwrap_err().to_string();
    assert_eq!(IntParseError::NegOverflow.description(), neg);
}
