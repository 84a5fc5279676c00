use termmon::codec::{decode_history, decode_history_text, HistoryError};

#[test]
fn decodes_index_and_command() {
    let raw = base64::encode("5 echo foo");
    let (index, command) = decode_history(&raw).unwrap();
    assert_eq!(index, 5);
    assert_eq!(command, "echo foo");
}

#[test]
fn rejects_missing_leading_digits() {
    let raw = base64::encode("echo foo");
    assert_eq!(decode_history(&raw), Err(HistoryError::BadShape));
}

#[test]
fn index_with_only_whitespace_gives_empty_command() {
    let raw = base64::encode("5   ");
    let (index, command) = decode_history(&raw).unwrap();
    assert_eq!(index, 5);
    assert_eq!(command, "");
}

#[test]
fn rejects_invalid_base64() {
    assert_eq!(decode_history("not base64!!"), Err(HistoryError::NotBase64));
}

#[test]
fn rejects_invalid_utf8() {
    let raw = base64::encode([0xffu8, 0xfe, 0x00]);
    assert_eq!(decode_history(&raw), Err(HistoryError::NotUtf8));
}

#[test]
fn rejects_index_overflow() {
    let raw = base64::encode("99999999999999999999 ls");
    assert_eq!(decode_history(&raw), Err(HistoryError::BadShape));
}

#[test]
fn keeps_internal_whitespace_trims_outer() {
    let got = decode_history_text("  12  git log   --stat  ");
    assert_eq!(got, Some((12, "git log   --stat".to_string())));
}

#[test]
fn leading_zeros_read_as_decimal() {
    assert_eq!(decode_history_text("007 x"), Some((7, "x".to_string())));
}

#[test]
fn digits_alone_give_empty_command() {
    assert_eq!(decode_history_text("31"), Some((31, "".to_string())));
}

#[test]
fn digits_run_straight_into_command() {
    assert_eq!(decode_history_text("5ls"), Some((5, "ls".to_string())));
}

#[test]
fn empty_text_is_rejected() {
    assert_eq!(decode_history_text(""), None);
}

#[test]
fn non_ascii_command_survives_decoding() {
    let raw = base64::encode("3 echo caf\u{e9} \u{2713}");
    let (index, command) = decode_history(&raw).unwrap();
    assert_eq!(index, 3);
    assert_eq!(command, "echo caf\u{e9} \u{2713}");
}
