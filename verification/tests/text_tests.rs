use dupfinder::errors::DupfinderError;
use dupfinder::numtext::parse_float_scaled;
use dupfinder::text::{lines_chars, split_chars, trim_str, u64_to_string};

fn chars(s: &str) -> Vec<char> {
    s.chars().collect()
}

#[test]
fn decimal_and_trim() {
    assert_eq!(u64_to_string(0), "0");
    assert_eq!(u64_to_string(18446744073709551615), "18446744073709551615");
    assert_eq!(trim_str("  a b \t\n"), "a b");
}

#[test]
fn splitting_lines() {
    let parts = split_chars(&chars("a/b//c"), '/');
    assert_eq!(parts, vec![chars("a"), chars("b"), chars(""), chars("c")]);
    let lines = lines_chars(&chars("x\r\ny\n\nz\n"));
    assert_eq!(lines, vec![chars("x"), chars("y"), chars(""), chars("z")]);
}

#[test]
fn scaled_float_parsing() {
    assert_eq!(parse_float_scaled(&chars("1.5"), 10), Some(1536));
    assert_eq!(parse_float_scaled(&chars("-3"), 10), Some(0));
    assert_eq!(parse_float_scaled(&chars("2e-1"), 0), Some(0));
    assert_eq!(parse_float_scaled(&chars("1E2"), 0), Some(100));
    assert_eq!(parse_float_scaled(&chars(".5"), 10), Some(512));
    assert_eq!(parse_float_scaled(&chars("5."), 0), Some(5));
    assert_eq!(parse_float_scaled(&chars("inf"), 0), Some(u64::MAX));
    assert_eq!(parse_float_scaled(&chars("NaN"), 0), Some(0));
    assert_eq!(parse_float_scaled(&chars("1e30"), 0), Some(u64::MAX));
    assert_eq!(parse_float_scaled(&chars("+7"), 20), Some(7 << 20));
    assert_eq!(parse_float_scaled(&chars("1.2.3"), 0), None);
    assert_eq!(parse_float_scaled(&chars(""), 0), None);
    assert_eq!(parse_float_scaled(&chars("."), 0), None);
    assert_eq!(parse_float_scaled(&chars("e5"), 0), None);
}

#[test]
fn error_messages() {
    let io = DupfinderError::IoError { path: "/x".to_string(), message: "denied".to_string() };
    assert_eq!(io.message(), "I/O error at /x: denied");
    assert_eq!(DupfinderError::CacheError("c".to_string()).message(), "Cache error: c");
    assert_eq!(DupfinderError::GlobError("g".to_string()).message(), "Invalid glob pattern: g");
    assert_eq!(DupfinderError::SerdeError("s".to_string()).message(), "Serialization error: s");
    assert_eq!(DupfinderError::ConfigError("k".to_string()).message(), "Configuration error: k");
    let p = DupfinderError::ProtectedPathError { path: "/etc".to_string(), reason: "no".to_string() };
    assert_eq!(p.message(), "Safety protection error at '/etc': no");
    assert_eq!(
        DupfinderError::OriginalPreservationError("o".to_string()).message(),
        "Original preservation violation: o"
    );
    let s = DupfinderError::StateChangedError { path: "/f".to_string(), reason: "r".to_string() };
    assert_eq!(s.message(), "File state changed since scan at '/f': r");
    assert_eq!(DupfinderError::RemediationError("m".to_string()).message(), "Remediation error: m");
}
