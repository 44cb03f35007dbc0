use wifi_motion::reassembler::{white_space, LineReassembler};

#[test]
fn a_line_split_over_two_chunks_comes_out_once_it_is_whole() {
    let mut reassembler = LineReassembler::new();
    let first = reassembler.feed(b"{\"counter\":1,\"mo");
    assert!(first.is_empty());
    assert_eq!(reassembler.pending_len(), 16);
    let second = reassembler.feed(b"tion\":0,\"aps\":[]}\n");
    assert_eq!(second, vec!["{\"counter\":1,\"motion\":0,\"aps\":[]}".to_string()]);
    assert_eq!(reassembler.pending_len(), 0);
}

#[test]
fn one_chunk_may_hold_many_lines() {
    let mut reassembler = LineReassembler::new();
    let lines = reassembler.feed(b"one\ntwo\nthree\nfo");
    assert_eq!(lines, vec!["one".to_string(), "two".to_string(), "three".to_string()]);
    assert_eq!(reassembler.pending_len(), 2);
    assert_eq!(reassembler.feed(b"ur\n"), vec!["four".to_string()]);
}

#[test]
fn a_line_may_come_one_byte_at_a_time() {
    let mut reassembler = LineReassembler::new();
    let mut lines: Vec<String> = Vec::new();
    for byte in b"ab c\r\nde\n" {
        lines.extend(reassembler.feed(&[*byte]));
    }
    assert_eq!(lines, vec!["ab c".to_string(), "de".to_string()]);
    assert_eq!(reassembler.pending_len(), 0);
}

#[test]
fn lines_are_trimmed_and_empty_ones_dropped() {
    let mut reassembler = LineReassembler::new();
    let lines = reassembler.feed(b"  a b \r\n\n \t \r\n\x0b\x0cc\n");
    assert_eq!(lines, vec!["a b".to_string(), "c".to_string()]);
    assert_eq!(reassembler.feed(b"\n\n\n"), Vec::<String>::new());
}

#[test]
fn white_space_beyond_ascii_is_trimmed_too() {
    let mut reassembler = LineReassembler::new();
    let lines = reassembler.feed("\u{a0}\u{2003}x\u{3000}y\u{85}\u{2028}\n\u{1680}\u{205f}\n".as_bytes());
    assert_eq!(lines, vec!["x\u{3000}y".to_string()]);
}

#[test]
fn what_follows_the_last_newline_waits() {
    let mut reassembler = LineReassembler::new();
    assert!(reassembler.feed(b"  no newline yet ").is_empty());
    assert_eq!(reassembler.pending_len(), 17);
    assert!(reassembler.feed(b"").is_empty());
    assert_eq!(reassembler.pending_len(), 17);
    assert_eq!(reassembler.feed(b"\n"), vec!["no newline yet".to_string()]);
}

#[test]
fn bytes_that_are_not_text_become_the_replacement_character() {
    let mut reassembler = LineReassembler::new();
    let lines = reassembler.feed(b"a\xffb\n\xc3\n");
    assert_eq!(lines, vec!["a\u{fffd}b".to_string(), "\u{fffd}".to_string()]);
}

#[test]
fn text_beyond_ascii_passes_whole() {
    let mut reassembler = LineReassembler::new();
    assert_eq!(reassembler.feed("Café 日本\n".as_bytes()), vec!["Café 日本".to_string()]);
    assert_eq!(reassembler.feed_text("Zoë\nné"), vec!["Zoë".to_string()]);
    assert_eq!(reassembler.pending_len(), 2);
}

#[test]
fn a_character_cut_in_two_by_the_chunks_is_replaced() {
    let mut reassembler = LineReassembler::new();
    assert!(reassembler.feed(b"caf\xc3").is_empty());
    assert_eq!(reassembler.feed(b"\xa9\n"), vec!["caf\u{fffd}\u{fffd}".to_string()]);
}

#[test]
fn feed_text_cuts_as_feed_does() {
    let mut by_bytes = LineReassembler::new();
    let mut by_text = LineReassembler::new();
    for chunk in ["a\nb", "c \n\n d", "", "\ne"] {
        assert_eq!(by_bytes.feed(chunk.as_bytes()), by_text.feed_text(chunk));
        assert_eq!(by_bytes.pending_len(), by_text.pending_len());
    }
}

#[test]
fn white_space_is_what_the_standard_library_calls_so() {
    for code in 0..=0x10ffffu32 {
        if let Some(c) = char::from_u32(code) {
            assert_eq!(white_space(c), c.is_whitespace(), "U+{:04X}", code);
        }
    }
}

#[test]
fn trimming_is_what_the_standard_library_does() {
    for text in ["", " ", "a", " a", "a ", "\t a \u{a0}b \r", "\u{2000}\u{200a}x\u{200b}", "\u{feff}x "] {
        let mut reassembler = LineReassembler::new();
        let lines = reassembler.feed_text(&format!("{}\n", text));
        let expected: Vec<String> =
            if text.trim().is_empty() { vec![] } else { vec![text.trim().to_string()] };
        assert_eq!(lines, expected, "{:?}", text);
    }
}
