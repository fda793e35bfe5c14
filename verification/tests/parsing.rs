use task_server::parser::parse_request;
use task_server::task::TaskType;

#[test]
fn from_u8_decodes_the_two_ordinals() {
    assert_eq!(TaskType::from_u8(0), Some(TaskType::CpuIntensiveTask));
    assert_eq!(TaskType::from_u8(1), Some(TaskType::IOIntensiveTask));
    assert_eq!(TaskType::from_u8(2), None);
    assert_eq!(TaskType::from_u8(9), None);
    assert_eq!(TaskType::from_u8(255), None);
}

#[test]
fn parses_a_plain_request_line() {
    assert_eq!(parse_request(b"1:42\n"), Some((TaskType::IOIntensiveTask, 42)));
    assert_eq!(parse_request(b"0:7\n"), Some((TaskType::CpuIntensiveTask, 7)));
}

#[test]
fn trailing_whitespace_is_trimmed() {
    assert_eq!(parse_request(b"1:42 \t\r\n"), Some((TaskType::IOIntensiveTask, 42)));
    assert_eq!(parse_request(b"  0:3\n"), Some((TaskType::CpuIntensiveTask, 3)));
}

#[test]
fn invalid_ordinal_is_rejected() {
    assert_eq!(parse_request(b"9:9\n"), None);
    assert_eq!(parse_request(b"2:5\n"), None);
    assert_eq!(parse_request(b"256:1\n"), None);
}

#[test]
fn malformed_lines_are_rejected() {
    assert_eq!(parse_request(b""), None);
    assert_eq!(parse_request(b"\n"), None);
    assert_eq!(parse_request(b"abc\n"), None);
    assert_eq!(parse_request(b"1:\n"), None);
    assert_eq!(parse_request(b":42\n"), None);
    assert_eq!(parse_request(b"1:18446744073709551616\n"), None);
    assert_eq!(parse_request(b"-1:4\n"), None);
    assert_eq!(parse_request(b"1:4 2\n"), None);
}

#[test]
fn seed_comes_from_the_last_field() {
    assert_eq!(parse_request(b"1:2:3\n"), Some((TaskType::IOIntensiveTask, 3)));
}

#[test]
fn a_lone_field_is_both_type_and_seed() {
    assert_eq!(parse_request(b"0\n"), Some((TaskType::CpuIntensiveTask, 0)));
    assert_eq!(parse_request(b"1\n"), Some((TaskType::IOIntensiveTask, 1)));
    assert_eq!(parse_request(b"7\n"), None);
}

#[test]
fn a_leading_plus_sign_is_accepted() {
    assert_eq!(parse_request(b"+1:+42\n"), Some((TaskType::IOIntensiveTask, 42)));
    assert_eq!(parse_request(b"++1:42\n"), None);
}

#[test]
fn largest_seed_parses() {
    assert_eq!(
        parse_request(b"1:18446744073709551615\n"),
        Some((TaskType::IOIntensiveTask, u64::MAX))
    );
}
