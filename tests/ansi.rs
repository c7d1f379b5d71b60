use synth_core::{chat_reply, clean_chat_output, strip_ansi};

#[test]
fn colour_codes_are_removed() {
    assert_eq!(strip_ansi("\x1b[31mred\x1b[0m text"), "red text");
}

#[test]
fn plain_text_is_kept() {
    assert_eq!(strip_ansi("no escapes here"), "no escapes here");
    assert_eq!(strip_ansi(""), "");
}

#[test]
fn lone_escape_is_dropped() {
    assert_eq!(strip_ansi("a\x1bb"), "ab");
    assert_eq!(strip_ansi("end\x1b"), "end");
}

#[test]
fn unterminated_sequence_runs_to_end() {
    assert_eq!(strip_ansi("keep\x1b[12;3"), "keep");
}

#[test]
fn sequence_ends_at_first_letter() {
    assert_eq!(strip_ansi("\x1b[1;32;40Hxy"), "xy");
    assert_eq!(strip_ansi("\x1b[2Kline"), "line");
}

#[test]
fn chat_output_is_decoded_and_cleaned() {
    assert_eq!(clean_chat_output(b"\x1b[1mbold\x1b[22m reply\n"), "bold reply\n");
}

#[test]
fn chat_output_replaces_invalid_utf8() {
    assert_eq!(clean_chat_output(&[b'o', b'k', 0xff]), "ok\u{fffd}");
}

#[test]
fn empty_chat_output_is_empty() {
    assert_eq!(clean_chat_output(&[]), "");
}

#[test]
fn successful_chat_gives_cleaned_reply() {
    assert_eq!(chat_reply(true, b"\x1b[32mdone\x1b[0m"), Some("done".to_string()));
}

#[test]
fn failed_chat_gives_nothing() {
    assert_eq!(chat_reply(false, b"partial output"), None);
}
