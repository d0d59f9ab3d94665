use malfs::version::extract_observed_version;
use malfs::version::extract_version_token;
use malfs::version::split_lines;
use malfs::version::version_le;

#[test]
fn version_order_numeric_not_lexical() {
    // Lexically "10.0" < "9.5"; numerically 10 > 9.
    assert!(version_le("9.5", "10.0"));
    assert!(!version_le("10.0", "9.5"));
}

#[test]
fn version_order_per_component() {
    // "4" > "2" per component even though "4.0" has fewer characters.
    assert!(version_le("2.13.1", "4.0"));
    assert!(!version_le("4.0", "2.13.1"));
}

#[test]
fn version_order_equal_and_prefix() {
    assert!(version_le("8.1", "8.1"));
    assert!(version_le("5.0", "5.0.0"));
    assert!(!version_le("5.0.0", "5.0"));
    assert!(version_le("08.1", "8.1"));
    assert!(version_le("8.1", "08.1"));
}

#[test]
fn version_order_alpha_suffix() {
    assert!(version_le("2.5.1", "2.5.1a"));
    assert!(!version_le("2.5.1a", "2.5.1"));
    assert!(version_le("2.5.1a", "2.5.1b"));
}

#[test]
fn version_order_empty_observed() {
    // An absent version compares below every required version.
    assert!(!version_le("8.1", ""));
    assert!(version_le("", "8.1"));
}

#[test]
fn token_extraction_basic() {
    let tok = extract_version_token("sort (GNU coreutils) 8.32").unwrap();
    assert_eq!(tok, "8.32");
}

#[test]
fn token_extraction_leftmost_with_suffix() {
    let tok = extract_version_token("grep (GNU grep) 2.5.1a says hi 9.9").unwrap();
    assert_eq!(tok, "2.5.1a");
}

#[test]
fn token_extraction_needs_dot() {
    assert!(extract_version_token("version 42 only").is_none());
    assert!(extract_version_token("").is_none());
}

#[test]
fn token_extraction_skips_bare_digits() {
    let tok = extract_version_token("x11 then 4.2.31 here").unwrap();
    assert_eq!(tok, "4.2.31");
}

#[test]
fn observed_version_scans_lines() {
    let out = "GNU tool\nrelease 1.3.12 of today\nlater 9.9.9\n";
    assert_eq!(extract_observed_version(out), "1.3.12");
}

#[test]
fn observed_version_absent_is_empty() {
    assert_eq!(extract_observed_version("no numbers here\nnor here\n"), "");
}

#[test]
fn split_lines_like_std() {
    let ls = split_lines("a\r\nb\n\nc");
    assert_eq!(ls, vec!["a".to_string(), "b".to_string(), "".to_string(), "c".to_string()]);
    assert_eq!(split_lines(""), Vec::<String>::new());
    assert_eq!(split_lines("x\n"), vec!["x".to_string()]);
}
