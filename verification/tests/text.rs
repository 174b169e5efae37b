use tallow_rust::text::{concatenate, contains_char, decimal_string, starts_with, strip_prefix, trim_end_slashes};

#[test]
fn trims_every_trailing_slash() {
    assert_eq!(trim_end_slashes("/usr/sbin///"), "/usr/sbin");
    assert_eq!(trim_end_slashes("/usr/sbin"), "/usr/sbin");
    assert_eq!(trim_end_slashes("///"), "");
    assert_eq!(trim_end_slashes(""), "");
    assert_eq!(trim_end_slashes("a/b/"), "a/b");
}

#[test]
fn decimal_strings_match_to_string() {
    for n in [0, 7, 10, 3600, -1, -45, i32::MAX, i32::MIN, 1000000] {
        assert_eq!(decimal_string(n), n.to_string());
    }
}

#[test]
fn prefix_tests() {
    assert!(starts_with("MESSAGE=x", "MESSAGE="));
    assert!(!starts_with("MESSAGE", "MESSAGE="));
    assert!(starts_with("abc", ""));
    assert_eq!(strip_prefix("MESSAGE=x", "MESSAGE="), "x");
    assert_eq!(strip_prefix("xMESSAGE=", "MESSAGE="), "xMESSAGE=");
}

#[test]
fn contains_and_concat() {
    assert!(contains_char("::1", ':'));
    assert!(!contains_char("1.2.3.4", ':'));
    assert!(!contains_char("", ':'));
    assert_eq!(concatenate("/usr/sbin", "/ipset"), "/usr/sbin/ipset");
}
