use tallow_rust::patterns::{item_match, match_message, pattern_expression, CaptureOutcome, FilterGroup, PatternItem};

fn group(filter: &str, items: Vec<PatternItem>) -> Vec<FilterGroup> {
    vec![FilterGroup { filter_str: filter.to_string(), items }]
}

fn item(pattern: &str, score: i64, instant_block: i32) -> PatternItem {
    PatternItem { pattern_str: pattern.to_string(), score, instant_block }
}

#[test]
fn test_match_message_success() {
    let patterns = group("_COMM=sshd", vec![item("Failed .* from ([0-9.]+) port", 500, 0)]);
    let message = "Failed password for invalid user test from 1.2.3.4 port 12345";
    let result = match_message(message, &patterns);
    assert_eq!(result, Some(("1.2.3.4".to_string(), 500, 0)));
}

#[test]
fn test_match_message_no_match() {
    let patterns = group("_COMM=sshd", vec![item("Failed .* from ([0-9.]+) port", 500, 0)]);
    let message = "System startup complete";
    let result = match_message(message, &patterns);
    assert_eq!(result, None);
}

#[test]
fn test_match_message_prefix_stripping() {
    let patterns = group("_COMM=any", vec![item("MESSAGE=User admin logged out from ([0-9.]+)", 1000, 0)]);
    let message = "User admin logged out from 1.1.1.1";
    let result = match_message(message, &patterns);
    assert_eq!(result, Some(("1.1.1.1".to_string(), 1000, 0)));
}

#[test]
fn test_match_message_no_capture_group() {
    let patterns = group("_COMM=any", vec![item("No capture group here", 1000, 0)]);
    let message = "No capture group here";
    let result = match_message(message, &patterns);
    assert_eq!(result, None);
}

#[test]
fn test_match_message_bad_regex_pattern() {
    let patterns = group(
        "_COMM=any",
        vec![
            item("MESSAGE=***InvalidRegex[", 1000, 0),
            item("MESSAGE=Valid pattern with IP ([0-9.]+)", 2000, 0),
        ],
    );
    let message = "Valid pattern with IP 2.2.2.2";
    let result = match_message(message, &patterns);
    assert_eq!(result, Some(("2.2.2.2".to_string(), 2000, 0)));
}

#[test]
fn first_matching_group_wins_in_order() {
    let patterns = vec![
        FilterGroup { filter_str: "_COMM=sshd".to_string(), items: vec![item("nothing here (\\d+)", 100, 0)] },
        FilterGroup {
            filter_str: "_COMM=sshd".to_string(),
            items: vec![item("from ([0-9.]+)", 2500, 0), item("from ([0-9.]+) port", 9000, 60)],
        },
        FilterGroup { filter_str: "_COMM=sshd".to_string(), items: vec![item("from (.*)", 1, 1)] },
    ];
    let result = match_message("Failed password from 10.0.0.9 port 22", &patterns);
    assert_eq!(result, Some(("10.0.0.9".to_string(), 2500, 0)));
}

#[test]
fn instant_block_seconds_come_with_the_match() {
    let patterns = group(
        "_COMM=sshd",
        vec![item(
            "MESSAGE=Received disconnect from ([0-9a-z:.]+) port \\d+:\\d+: Too many authentication failures \\[preauth\\]",
            0,
            3600,
        )],
    );
    let message = "Received disconnect from 2001:db8::7 port 4242:11: Too many authentication failures [preauth]";
    assert_eq!(match_message(message, &patterns), Some(("2001:db8::7".to_string(), 0, 3600)));
}

#[test]
fn empty_pattern_list_matches_nothing() {
    assert_eq!(match_message("Failed password from 1.2.3.4 port 1", &[]), None);
}

#[test]
fn pattern_expression_strips_only_a_leading_prefix() {
    assert_eq!(pattern_expression("MESSAGE=abc (x)"), "abc (x)");
    assert_eq!(pattern_expression("abc MESSAGE=(x)"), "abc MESSAGE=(x)");
    assert_eq!(pattern_expression("MESSAGE"), "MESSAGE");
    assert_eq!(pattern_expression("MESSAGE="), "");
}

#[test]
fn item_match_takes_the_captured_text_only() {
    let it = item("x", 1500, 30);
    assert_eq!(item_match(&it, CaptureOutcome::Captured("9.9.9.9".to_string())), Some(("9.9.9.9".to_string(), 1500, 30)));
    assert_eq!(item_match(&it, CaptureOutcome::NoCapture), None);
    assert_eq!(item_match(&it, CaptureOutcome::InvalidPattern), None);
}
