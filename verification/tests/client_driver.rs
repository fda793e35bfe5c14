use task_server::client::checksum;
use task_server::client::format_request;
use task_server::parser::parse_request;
use task_server::task::TaskType;

#[test]
fn builds_the_expected_line() {
    assert_eq!(format_request(1, 42), b"1:42\n".to_vec());
    assert_eq!(format_request(0, 0), b"0:0\n".to_vec());
    assert_eq!(
        format_request(0, u64::MAX),
        b"0:18446744073709551615\n".to_vec()
    );
    assert_eq!(format_request(200, 7), b"200:7\n".to_vec());
}

#[test]
fn built_lines_parse_back() {
    for (typ, seed) in [(0u8, 0u64), (1, 1), (0, 42), (1, u64::MAX)] {
        let line = format_request(typ, seed);
        let parsed = parse_request(&line).expect("a built line must parse");
        assert_eq!(parsed.0, TaskType::from_u8(typ).unwrap());
        assert_eq!(parsed.1, seed);
    }
    assert_eq!(parse_request(&format_request(9, 9)), None);
}

#[test]
fn checksum_sums_the_collected_bytes() {
    assert_eq!(checksum(&vec![]), 0);
    assert_eq!(checksum(&vec![1, 2, 3]), 6);
    assert_eq!(checksum(&vec![255; 10]), 2550);
}
