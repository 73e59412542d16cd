use yara_worker::text::{
    all_chars_printable, chars_of, is_whitespace, printable, render_matched, to_hex_lower,
    trimmed_bounds,
};

#[test]
fn render_printable_text_as_is() {
    assert_eq!(render_matched(b"malware"), "malware");
    assert_eq!(render_matched(b"tab\there"), "tab\there");
    assert_eq!(render_matched("héllo".as_bytes()), "héllo");
    assert_eq!(render_matched(b""), "");
}

#[test]
fn render_binary_or_control_as_hex() {
    assert_eq!(render_matched(b"\xde\xad\xbe\xef"), "deadbeef");
    // Valid UTF-8 with a newline (a control character) goes to hex.
    assert_eq!(render_matched(b"a\nb"), "610a62");
    // Invalid UTF-8 (a lone continuation byte) goes to hex.
    assert_eq!(render_matched(b"ab\x80"), "616280");
    // U+0085 (NEL) is a C1 control character.
    assert_eq!(render_matched("x\u{85}".as_bytes()), "78c285");
}

#[test]
fn render_output_never_holds_control_characters() {
    let all: Vec<u8> = (0u16..256).map(|x| x as u8).collect();
    let r = render_matched(&all);
    assert_eq!(r.len(), 512);
    assert!(r.chars().all(|c| !c.is_control()));
}

#[test]
fn hex_lower_digits() {
    assert_eq!(to_hex_lower(&[0x00, 0x0f, 0xa0, 0xff]), "000fa0ff");
    assert_eq!(to_hex_lower(&[]), "");
}

#[test]
fn whitespace_and_printable_classes_match_std() {
    for u in 0u32..0x110000 {
        if let Some(c) = char::from_u32(u) {
            assert_eq!(is_whitespace(c), c.is_whitespace(), "U+{u:04X}");
            assert_eq!(printable(c), !c.is_control() || c == '\t', "U+{u:04X}");
        }
    }
}

#[test]
fn chars_and_printable_checks() {
    assert_eq!(chars_of("añb"), vec!['a', 'ñ', 'b']);
    assert!(all_chars_printable("plain\ttext"));
    assert!(!all_chars_printable("bell\u{7}"));
}

#[test]
fn trimmed_bounds_strip_white_space() {
    let s = chars_of("  ab c \t");
    assert_eq!(trimmed_bounds(&s, 0, s.len()), (2, 6));
    let blank = chars_of("   ");
    let (lo, hi) = trimmed_bounds(&blank, 0, 3);
    assert_eq!(lo, hi);
}
