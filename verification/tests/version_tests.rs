use std::cmp::Ordering;

use python_launcher::{Error, ExactVersion, Match, RequestedVersion};

#[test]
fn test_requestedversion_from_str() {
    assert!(RequestedVersion::from_str(".3").is_err());
    assert!(RequestedVersion::from_str("3.").is_err());
    assert!(RequestedVersion::from_str("h").is_err());
    assert!(RequestedVersion::from_str("3.b").is_err());
    assert!(RequestedVersion::from_str("a.7").is_err());
    assert_eq!(RequestedVersion::from_str(""), Ok(RequestedVersion::Any));
    assert_eq!(
        RequestedVersion::from_str("3"),
        Ok(RequestedVersion::MajorOnly(3))
    );
    assert_eq!(
        RequestedVersion::from_str("3.8"),
        Ok(RequestedVersion::Exact(3, 8))
    );
    assert_eq!(
        RequestedVersion::from_str("42.13"),
        Ok(RequestedVersion::Exact(42, 13))
    );
    assert!(RequestedVersion::from_str("3.6.5").is_err());
}

#[test]
fn version_test_requestedversion_from_exactversion() {
    assert_eq!(
        RequestedVersion::from(ExactVersion {
            major: 42,
            minor: 13
        }),
        RequestedVersion::Exact(42, 13)
    );
}

#[test]
fn lib_test_requestedversion_from_exactversion() {
    assert_eq!(
        RequestedVersion::from(ExactVersion {
            major: 42,
            minor: 13
        }),
        RequestedVersion::Exact(42, 13)
    );
}

#[test]
fn test_env_var() {
    assert_eq!(
        RequestedVersion::Any.env_var(),
        Some("PY_PYTHON".to_string())
    );
    assert_eq!(
        RequestedVersion::MajorOnly(3).env_var(),
        Some("PY_PYTHON3".to_string())
    );
    assert_eq!(
        RequestedVersion::MajorOnly(42).env_var(),
        Some("PY_PYTHON42".to_string())
    );
    assert!(RequestedVersion::Exact(42, 13).env_var().is_none());
}

#[test]
fn test_exactversion_to_string() {
    assert_eq!(
        ExactVersion { major: 3, minor: 8 }.to_string(),
        "3.8".to_string()
    );
    assert_eq!(
        ExactVersion {
            major: 42,
            minor: 13
        }
        .to_string(),
        "42.13".to_string()
    );
}

#[test]
fn test_version_matches() {
    let any = RequestedVersion::Any;
    let loose_42 = RequestedVersion::MajorOnly(42);
    let exact_42_13 = RequestedVersion::Exact(42, 13);

    let version_3_6 = ExactVersion { major: 3, minor: 6 };
    let version_42_0 = ExactVersion {
        major: 42,
        minor: 0,
    };
    let version_42_13 = ExactVersion {
        major: 42,
        minor: 13,
    };

    assert_eq!(version_3_6.matches(any), Match::Somewhat);
    assert_eq!(version_3_6.matches(loose_42), Match::No);
    assert_eq!(version_3_6.matches(exact_42_13), Match::No);

    assert_eq!(version_42_0.matches(any), Match::Somewhat);
    assert_eq!(version_42_0.matches(loose_42), Match::Somewhat);
    assert_eq!(version_42_0.matches(exact_42_13), Match::No);

    assert_eq!(version_42_13.matches(any), Match::Somewhat);
    assert_eq!(version_42_13.matches(loose_42), Match::Somewhat);
    assert_eq!(version_42_13.matches(exact_42_13), Match::Yes);
}

#[test]
fn exactversion_comparisons() {
    let py2_7 = ExactVersion { major: 2, minor: 7 };
    let py3_0 = ExactVersion { major: 3, minor: 0 };
    let py3_6 = ExactVersion { major: 3, minor: 6 };
    let py3_10 = ExactVersion {
        major: 3,
        minor: 10,
    };

    // ==
    assert_eq!(py3_10.cmp(&py3_10), Ordering::Equal);
    // <
    assert_eq!(py3_0.cmp(&py3_6), Ordering::Less);
    // >
    assert_eq!(py3_6.cmp(&py3_0), Ordering::Greater);
    // Differ by major version.
    assert_eq!(py2_7.cmp(&py3_0), Ordering::Less);
    assert_eq!(py3_0.cmp(&py2_7), Ordering::Greater);
    // Sort order different from lexicographic order.
    assert_eq!(py3_6.cmp(&py3_10), Ordering::Less);
    assert_eq!(py3_10.cmp(&py3_6), Ordering::Greater);
}

#[test]
fn requestedversion_to_string_tests() {
    assert_eq!(RequestedVersion::Any.to_string(), "Python".to_string());
    assert_eq!(
        RequestedVersion::MajorOnly(3).to_string(),
        "Python 3".to_string()
    );
    assert_eq!(
        RequestedVersion::Exact(3, 8).to_string(),
        "Python 3.8".to_string()
    );
}

#[test]
fn requestedversion_from_str_error_payload() {
    assert_eq!(
        RequestedVersion::from_str("h"),
        Err(Error::ParseVersionComponentError("h".to_string()))
    );
    assert_eq!(
        RequestedVersion::from_str("3.b"),
        Err(Error::ParseVersionComponentError("b".to_string()))
    );
    assert_eq!(
        RequestedVersion::from_str("a.7"),
        Err(Error::ParseVersionComponentError("a".to_string()))
    );
    // A value too large for a sixteen-bit component is a parse error, not
    // a panic.
    assert!(RequestedVersion::from_str("65536").is_err());
    assert_eq!(
        RequestedVersion::from_str("65535"),
        Ok(RequestedVersion::MajorOnly(65535))
    );
}

#[test]
fn exactversion_from_str_tests() {
    assert_eq!(ExactVersion::from_str(""), Err(Error::DotMissing));
    assert_eq!(ExactVersion::from_str("3"), Err(Error::DotMissing));
    assert!(matches!(
        ExactVersion::from_str(".7"),
        Err(Error::ParseVersionComponentError(_))
    ));
    assert!(matches!(
        ExactVersion::from_str("3."),
        Err(Error::ParseVersionComponentError(_))
    ));
    assert!(matches!(
        ExactVersion::from_str("3.Y"),
        Err(Error::ParseVersionComponentError(_))
    ));
    assert!(matches!(
        ExactVersion::from_str("X.7"),
        Err(Error::ParseVersionComponentError(_))
    ));
    assert_eq!(
        ExactVersion::from_str("42.13"),
        Ok(ExactVersion {
            major: 42,
            minor: 13
        })
    );
}

#[test]
fn exactversion_from_path_tests() {
    assert_eq!(ExactVersion::from_path("/"), Err(Error::FileNameMissing));
    assert_eq!(
        ExactVersion::from_path("/notpython"),
        Err(Error::PathFileNameError)
    );
    assert_eq!(
        ExactVersion::from_path("/python3"),
        Err(Error::PathFileNameError)
    );
    assert!(matches!(
        ExactVersion::from_path("/pythonX.Y"),
        Err(Error::ParseVersionComponentError(_))
    ));
    assert_eq!(
        ExactVersion::from_path("/python42.13"),
        Ok(ExactVersion {
            major: 42,
            minor: 13
        })
    );
    assert_eq!(
        ExactVersion::from_path("/usr/bin/python3.6"),
        Ok(ExactVersion { major: 3, minor: 6 })
    );
}

#[test]
fn exactversion_from_path_degenerate_paths() {
    // Trailing separators and `.` components are ignored, as `Path`
    // resolves a final component.
    assert_eq!(
        ExactVersion::from_path("/foo/"),
        Err(Error::PathFileNameError)
    );
    assert_eq!(
        ExactVersion::from_path("python3.6/"),
        Ok(ExactVersion { major: 3, minor: 6 })
    );
    assert_eq!(
        ExactVersion::from_path("python3.6/."),
        Ok(ExactVersion { major: 3, minor: 6 })
    );
    assert_eq!(
        ExactVersion::from_path("./python3.6"),
        Ok(ExactVersion { major: 3, minor: 6 })
    );
    // A path resolving to no normal component has no file name.
    assert_eq!(ExactVersion::from_path("."), Err(Error::FileNameMissing));
    assert_eq!(ExactVersion::from_path(".."), Err(Error::FileNameMissing));
    assert_eq!(ExactVersion::from_path("a/.."), Err(Error::FileNameMissing));
    assert_eq!(ExactVersion::from_path("///"), Err(Error::FileNameMissing));
}

#[test]
fn exactversion_supports_tests() {
    let example = ExactVersion { major: 3, minor: 6 };
    assert!(example.supports(RequestedVersion::Any));
    assert!(!example.supports(RequestedVersion::MajorOnly(2)));
    assert!(example.supports(RequestedVersion::MajorOnly(3)));
    assert!(!example.supports(RequestedVersion::Exact(2, 7)));
    assert!(!example.supports(RequestedVersion::Exact(3, 5)));
    assert!(!example.supports(RequestedVersion::Exact(4, 0)));
    assert!(!example.supports(RequestedVersion::Exact(3, 7)));
    assert!(example.supports(RequestedVersion::Exact(3, 6)));
}

#[test]
fn parse_then_render_round_trip() {
    // Parsing a canonical `major.minor` string and rendering the result
    // reproduces `Python major.minor`.
    for (text, rendered) in [
        ("3.9", "Python 3.9"),
        ("3.10", "Python 3.10"),
        ("42.13", "Python 42.13"),
        ("65535.65535", "Python 65535.65535"),
    ] {
        let parsed = RequestedVersion::from_str(text).unwrap();
        assert_eq!(parsed.to_string(), rendered.to_string());
    }
}

#[test]
fn multi_dot_strings_fail_to_parse() {
    for text in ["3.6.5", "1.2.3.4", "..", "3..", ".4.", "3.9.0"] {
        assert!(RequestedVersion::from_str(text).is_err(), "{text:?} parsed");
    }
}

#[test]
fn ordering_is_numeric_not_lexicographic() {
    let py3_9 = ExactVersion { major: 3, minor: 9 };
    let py3_10 = ExactVersion {
        major: 3,
        minor: 10,
    };
    assert!(py3_9 < py3_10);
    // Lexicographically "3.10" sorts before "3.9"; numerically it must not.
    assert!(py3_9.to_string() > py3_10.to_string());
}

#[test]
fn exactversion_new_tests() {
    assert_eq!(
        ExactVersion::new(3, 9),
        ExactVersion { major: 3, minor: 9 }
    );
}
