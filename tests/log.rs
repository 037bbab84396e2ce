use screen_time::log::{format_sample, get_last_log, parse_sample, LogError};

const NOW: i64 = 1_600_000_000_000;

#[test]
fn format_sample_writes_decimal_lines() {
    assert_eq!(format_sample(0), b"0\n".to_vec());
    assert_eq!(format_sample(7), b"7\n".to_vec());
    assert_eq!(format_sample(1515546000000), b"1515546000000\n".to_vec());
    assert_eq!(format_sample(-42), b"-42\n".to_vec());
    assert_eq!(format_sample(i64::MAX), b"9223372036854775807\n".to_vec());
    assert_eq!(format_sample(i64::MIN), b"-9223372036854775808\n".to_vec());
}

#[test]
fn parse_sample_reads_signed_decimals() {
    assert_eq!(parse_sample(b"0"), Some(0));
    assert_eq!(parse_sample(b"1515546000000"), Some(1515546000000));
    assert_eq!(parse_sample(b"+7"), Some(7));
    assert_eq!(parse_sample(b"-42"), Some(-42));
    assert_eq!(parse_sample(b"007"), Some(7));
    assert_eq!(parse_sample(b"9223372036854775807"), Some(i64::MAX));
    assert_eq!(parse_sample(b"-9223372036854775808"), Some(i64::MIN));
}

#[test]
fn parse_sample_rejects_malformed_text() {
    assert_eq!(parse_sample(b""), None);
    assert_eq!(parse_sample(b"-"), None);
    assert_eq!(parse_sample(b"+"), None);
    assert_eq!(parse_sample(b"12a"), None);
    assert_eq!(parse_sample(b" 12"), None);
    assert_eq!(parse_sample(b"--1"), None);
    assert_eq!(parse_sample(b"9223372036854775808"), None);
    assert_eq!(parse_sample(b"-9223372036854775809"), None);
    assert_eq!(parse_sample(b"99999999999999999999999"), None);
}

#[test]
fn parse_sample_agrees_with_std() {
    for text in ["0", "-0", "+12", "12x", "", "-", "123456789012345678901", "-9223372036854775808"] {
        assert_eq!(parse_sample(text.as_bytes()), text.parse::<i64>().ok());
    }
}

#[test]
fn empty_log_falls_back_to_now() {
    assert_eq!(get_last_log(b"", NOW), Ok(NOW));
    assert_eq!(get_last_log(b"\n", NOW), Ok(NOW));
    assert_eq!(get_last_log(b"\n\n\n", NOW), Ok(NOW));
}

#[test]
fn last_non_empty_line_is_read() {
    assert_eq!(get_last_log(b"5\n", NOW), Ok(5));
    assert_eq!(get_last_log(b"5", NOW), Ok(5));
    assert_eq!(get_last_log(b"1\n2\n3\n", NOW), Ok(3));
    assert_eq!(get_last_log(b"1\n2", NOW), Ok(2));
    assert_eq!(get_last_log(b"1\n2\n\n\n", NOW), Ok(2));
    assert_eq!(get_last_log(b"oops\n-17\n", NOW), Ok(-17));
}

#[test]
fn malformed_last_line_is_an_error() {
    assert_eq!(get_last_log(b"1\nabc\n", NOW), Err(LogError::MalformedSample));
    assert_eq!(get_last_log(b"12 \n", NOW), Err(LogError::MalformedSample));
    assert_eq!(get_last_log(b"1\r\n", NOW), Err(LogError::MalformedSample));
}

#[test]
fn append_then_read_round_trip() {
    let (t1, t2, t3) = (1515546000000, 1515549600000, 1515808800000);
    let mut log: Vec<u8> = Vec::new();
    for t in [t1, t2, t3] {
        log.extend(format_sample(t));
    }
    assert_eq!(log, b"1515546000000\n1515549600000\n1515808800000\n".to_vec());
    assert_eq!(get_last_log(&log, NOW), Ok(t3));
}

#[test]
fn every_formatted_sample_reads_back() {
    for t in [0, 1, -1, 9, 10, -10, 1515546000000, i64::MAX, i64::MIN] {
        let line = format_sample(t);
        assert_eq!(parse_sample(&line[..line.len() - 1]), Some(t));
        assert_eq!(get_last_log(&line, NOW), Ok(t));
    }
}
