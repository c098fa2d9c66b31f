use rtbot::hub::ClientMessage;
use rtbot::wire::{decimal_text, frame_text, parse_frame, parse_u64, split_fields_of};

fn data(m: Option<ClientMessage>) -> Option<(u64, Vec<String>)> {
    m.map(|ClientMessage::Data { timestamp, values }| (timestamp, values))
}

#[test]
fn parse_frame_reads_timestamp_and_values() {
    assert_eq!(
        data(parse_frame("1000,1.5,2")),
        Some((1000, vec!["1.5".to_string(), "2".to_string()]))
    );
    assert_eq!(data(parse_frame("7")), Some((7, vec![])));
    assert_eq!(data(parse_frame("7,")), Some((7, vec!["".to_string()])));
}

#[test]
fn parse_frame_refuses_bad_timestamps() {
    assert!(parse_frame("abc,1").is_none());
    assert!(parse_frame(",1").is_none());
    assert!(parse_frame("").is_none());
    assert!(parse_frame("-1,2").is_none());
    assert!(parse_frame("18446744073709551616,1").is_none());
}

#[test]
fn parse_u64_bounds() {
    assert_eq!(parse_u64("0"), Some(0));
    assert_eq!(parse_u64("18446744073709551615"), Some(u64::MAX));
    assert_eq!(parse_u64("18446744073709551616"), None);
    assert_eq!(parse_u64("99999999999999999999x"), None);
    assert_eq!(parse_u64("12a"), None);
    assert_eq!(parse_u64(""), None);
}

#[test]
fn split_fields_keeps_empty_fields() {
    assert_eq!(split_fields_of("a,,b"), vec!["a", "", "b"]);
    assert_eq!(split_fields_of(""), vec![""]);
    assert_eq!(split_fields_of("é,ü"), vec!["é", "ü"]);
}

#[test]
fn decimal_text_writes_numbers() {
    assert_eq!(decimal_text(0), "0");
    assert_eq!(decimal_text(1000), "1000");
    assert_eq!(decimal_text(u64::MAX), "18446744073709551615");
}

#[test]
fn client_message_json() {
    let m = ClientMessage::Data { timestamp: 1000, values: vec!["1.0".to_string()] };
    assert_eq!(m.to_json(), r#"{"timestamp":1000,"values":["1.0"]}"#);
    let m = ClientMessage::Data {
        timestamp: 5,
        values: vec!["a\"b".to_string(), "c\\d".to_string()],
    };
    assert_eq!(m.to_json(), r#"{"timestamp":5,"values":["a\"b","c\\d"]}"#);
    let m = ClientMessage::Data { timestamp: 0, values: vec![] };
    assert_eq!(m.to_json(), r#"{"timestamp":0,"values":[]}"#);
}

#[test]
fn frame_text_joins_quoted_values() {
    let q = vec!["\"x\"".to_string(), "\"y\"".to_string()];
    assert_eq!(frame_text(12, &q), r#"{"timestamp":12,"values":["x","y"]}"#);
}
