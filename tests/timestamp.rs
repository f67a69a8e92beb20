use tts_rust::timestamp::{parse_timestamp, FormatError};

#[test]
fn parses_whole_seconds() {
    assert_eq!(parse_timestamp("00:00:01,000"), Ok(1000));
}

#[test]
fn parses_every_field() {
    assert_eq!(parse_timestamp("01:02:03,004"), Ok(3_723_004));
}

#[test]
fn keeps_millisecond_resolution() {
    assert_eq!(parse_timestamp("00:00:00,001"), Ok(1));
    assert_eq!(parse_timestamp("00:00:59,999"), Ok(59_999));
}

#[test]
fn short_fields_are_read_as_numbers() {
    assert_eq!(parse_timestamp("1:2:3,4"), Ok(3_723_004));
}

#[test]
fn rejects_two_colon_parts() {
    assert_eq!(parse_timestamp("00:01,000"), Err(FormatError));
}

#[test]
fn rejects_four_colon_parts() {
    assert_eq!(parse_timestamp("00:00:00:01,000"), Err(FormatError));
}

#[test]
fn rejects_missing_comma() {
    assert_eq!(parse_timestamp("00:00:01"), Err(FormatError));
}

#[test]
fn rejects_two_commas() {
    assert_eq!(parse_timestamp("00:00:01,00,0"), Err(FormatError));
}

#[test]
fn rejects_non_numeric_field() {
    assert_eq!(parse_timestamp("aa:00:01,000"), Err(FormatError));
    assert_eq!(parse_timestamp("00:00:01,"), Err(FormatError));
    assert_eq!(parse_timestamp("00: 0:01,000"), Err(FormatError));
}

#[test]
fn rejects_empty_string() {
    assert_eq!(parse_timestamp(""), Err(FormatError));
}

#[test]
fn rejects_field_beyond_32_bits() {
    assert_eq!(parse_timestamp("4294967296:00:00,000"), Err(FormatError));
    assert_eq!(
        parse_timestamp("4294967295:00:00,000"),
        Ok(4_294_967_295u64 * 3_600_000)
    );
}
