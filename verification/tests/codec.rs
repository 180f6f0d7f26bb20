use record_playback::codec::{
    decode_number, decode_text, encode_number, encode_text, number_from_body, push_payload,
    read_payload, text_from_body,
};
use record_playback::decimal::{push_decimal, scan_number};
use record_playback::error::ReplayError;

#[test]
fn decimal_of_zero_is_one_digit() {
    let mut out = Vec::new();
    push_decimal(&mut out, 0);
    assert_eq!(out, b"0".to_vec());
}

#[test]
fn decimal_is_appended_to_what_is_there() {
    let mut out = b"x".to_vec();
    push_decimal(&mut out, 1205);
    assert_eq!(out, b"x1205".to_vec());
}

#[test]
fn decimal_of_the_greatest_number() {
    let mut out = Vec::new();
    push_decimal(&mut out, u64::MAX);
    assert_eq!(out, b"18446744073709551615".to_vec());
    assert_eq!(scan_number(&out, 0), Some((u64::MAX, 20)));
}

#[test]
fn scan_stops_at_the_first_byte_that_is_no_digit() {
    assert_eq!(scan_number(b"ab 137 cd", 3), Some((137, 6)));
    assert_eq!(scan_number(b"137", 0), Some((137, 3)));
    assert_eq!(scan_number(b"007x", 0), Some((7, 3)));
}

#[test]
fn scan_finds_no_number_without_a_digit() {
    assert_eq!(scan_number(b" 12", 0), None);
    assert_eq!(scan_number(b"", 0), None);
    assert_eq!(scan_number(b"12", 2), None);
    assert_eq!(scan_number(b"12", 3), None);
    assert_eq!(scan_number(b"-1", 0), None);
}

#[test]
fn scan_refuses_a_number_beyond_64_bits() {
    assert_eq!(scan_number(b"18446744073709551616", 0), None);
    assert_eq!(scan_number(b"99999999999999999999999 ", 0), None);
}

#[test]
fn number_payload_is_length_space_decimal() {
    assert_eq!(encode_number(42), Some(b"2 42".to_vec()));
    assert_eq!(encode_number(0), Some(b"1 0".to_vec()));
    assert_eq!(encode_number(u32::MAX), Some(b"10 4294967295".to_vec()));
}

#[test]
fn text_payload_is_length_space_quoted_text() {
    assert_eq!(encode_text("hi"), Some(b"4 \"hi\"".to_vec()));
    assert_eq!(encode_text(""), Some(b"2 \"\"".to_vec()));
}

#[test]
fn number_round_trip() {
    for n in [0u32, 1, 42, 100, 65_536, u32::MAX] {
        let payload = encode_number(n).unwrap();
        assert_eq!(decode_number(&payload), Ok(n));
    }
}

#[test]
fn text_with_space_and_newline_round_trips() {
    let text = "two words\nand a second line  ";
    let payload = encode_text(text).unwrap();
    assert_eq!(decode_text(&payload), Ok(text.to_string()));
}

#[test]
fn text_with_quotes_and_unicode_round_trips() {
    let text = "say \"hi\" \\ caf\u{e9} \t x";
    let payload = encode_text(text).unwrap();
    assert_eq!(decode_text(&payload), Ok(text.to_string()));
}

#[test]
fn length_counts_bytes_not_characters() {
    let payload = encode_text("\u{e9}").unwrap();
    assert_eq!(payload, "4 \"\u{e9}\"".as_bytes().to_vec());
}

#[test]
fn decode_reads_what_stands_behind_the_length() {
    assert_eq!(decode_number(b"2 42"), Ok(42));
    assert_eq!(decode_text(b"4 \"hi\""), Ok("hi".to_string()));
}

#[test]
fn decode_refuses_a_wrong_byte_count() {
    assert_eq!(decode_number(b"3 42"), Err(ReplayError::Malformed));
    assert_eq!(decode_number(b"1 42"), Err(ReplayError::Malformed));
    assert_eq!(decode_text(b"5 \"hi\""), Err(ReplayError::Malformed));
    assert_eq!(decode_text(b"3 \"hi\""), Err(ReplayError::Malformed));
}

#[test]
fn decode_refuses_a_missing_length_or_space() {
    assert_eq!(decode_number(b"42"), Err(ReplayError::Malformed));
    assert_eq!(decode_number(b""), Err(ReplayError::Malformed));
    assert_eq!(decode_number(b" 2 42"), Err(ReplayError::Malformed));
    assert_eq!(decode_text(b"4\"hi\""), Err(ReplayError::Malformed));
}

#[test]
fn decode_refuses_a_value_of_the_other_kind() {
    assert_eq!(decode_number(b"4 \"hi\""), Err(ReplayError::Malformed));
    assert_eq!(decode_text(b"2 42"), Err(ReplayError::Malformed));
    assert_eq!(number_from_body(b"x"), Err(ReplayError::Malformed));
    assert_eq!(text_from_body(b"\"open"), Err(ReplayError::Malformed));
}

#[test]
fn payload_keeps_any_bytes() {
    let body = b"a b\nc \n\n 12 34 ";
    let mut out = b">>".to_vec();
    push_payload(&mut out, body);
    assert_eq!(out, b">>15 a b\nc \n\n 12 34 ".to_vec());
    out.extend_from_slice(b" tail");
    assert_eq!(read_payload(&out, 2), Some((body.to_vec(), 20)));
}

#[test]
fn payload_of_nothing() {
    let mut out = Vec::new();
    push_payload(&mut out, b"");
    assert_eq!(out, b"0 ".to_vec());
    assert_eq!(read_payload(&out, 0), Some((Vec::new(), 2)));
}

#[test]
fn payload_longer_than_the_text_is_none() {
    assert_eq!(read_payload(b"5 abcd", 0), None);
    assert_eq!(read_payload(b"18446744073709551615 abcd", 0), None);
    assert_eq!(read_payload(b"4 abcd", 0), Some((b"abcd".to_vec(), 6)));
    assert_eq!(read_payload(b"4 abcd", 7), None);
}

#[test]
fn error_messages_name_the_check() {
    assert_eq!(ReplayError::Exhausted.message(), "no more events to play back");
    assert_eq!(
        ReplayError::ContentMismatch.message(),
        "console output does not match the recorded text"
    );
    assert_eq!(
        ReplayError::Configuration.message(),
        "recording and playback cannot both be enabled"
    );
    assert_ne!(ReplayError::Malformed.message(), ReplayError::SequenceMismatch.message());
    assert_ne!(ReplayError::WrongMode.message(), ReplayError::Encoding.message());
}
