use rats::level::LogLevel;
use rats::session::match_package;
use std::str::FromStr;

#[test]
fn match_package_basic() {
    let packages = vec!["com.test", "com.example"];
    assert!(match_package(&packages, "com.test:what"))
}

#[test]
fn match_package_not_match() {
    let packages = vec!["com.test", "com.example"];
    assert_eq!(false, match_package(&packages, "com.meh:com.example"))
}

#[test]
fn match_package_empty() {
    let packages = vec![];
    assert!(match_package(&packages, "com.meh:com.example"))
}

#[test]
fn filter_log_level() {
    let error_level = LogLevel::from_str("E").unwrap();
    let warn_level = LogLevel::from_str("W").unwrap();

    assert!(error_level > warn_level)
}
