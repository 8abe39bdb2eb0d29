use indexer_events::coin::{escape_default, escape_memo};
use indexer_events::events::payload_of_line;
use indexer_events::text::{chars_of, parse_u128, same_text, u128_text};

#[test]
fn amounts_of_128_bits_are_read_from_digits() {
    assert_eq!(parse_u128("0"), Some(0));
    assert_eq!(parse_u128("1000"), Some(1000));
    assert_eq!(parse_u128("+1000"), Some(1000));
    assert_eq!(parse_u128("0001000"), Some(1000));
    assert_eq!(parse_u128("340282366920938463463374607431768211455"), Some(u128::MAX));
    assert_eq!(parse_u128("340282366920938463463374607431768211456"), None);
    assert_eq!(parse_u128("3402823669209384634633746074317682114550"), None);
    assert_eq!(parse_u128(""), None);
    assert_eq!(parse_u128("+"), None);
    assert_eq!(parse_u128("-1"), None);
    assert_eq!(parse_u128("++1"), None);
    assert_eq!(parse_u128("1_000"), None);
    assert_eq!(parse_u128(" 1"), None);
    assert_eq!(parse_u128("1 "), None);
    assert_eq!(parse_u128("12a"), None);
    assert_eq!(parse_u128("١٢"), None);
}

#[test]
fn reading_agrees_with_the_standard_reader() {
    for text in ["0", "+5", "17", "-3", "", "340282366920938463463374607431768211455", "+", "0x10", "1e3"] {
        assert_eq!(parse_u128(text), text.parse::<u128>().ok());
    }
}

#[test]
fn amounts_of_128_bits_are_written_in_digits() {
    assert_eq!(u128_text(0), "0");
    assert_eq!(u128_text(9), "9");
    assert_eq!(u128_text(10), "10");
    assert_eq!(u128_text(1000), "1000");
    assert_eq!(u128_text(u128::MAX), u128::MAX.to_string());
    assert_eq!(parse_u128(&u128_text(123456789)), Some(123456789));
}

#[test]
fn texts_are_compared_by_their_characters() {
    assert!(same_text("ft_transfer", "ft_transfer"));
    assert!(!same_text("ft_transfer", "ft_transfer_call"));
    assert!(!same_text("aé", "ae"));
    assert!(same_text("", ""));
    assert_eq!(chars_of("aé😀"), vec!['a', 'é', '😀']);
}

#[test]
fn the_payload_stands_behind_the_marker() {
    assert_eq!(payload_of_line("EVENT_JSON:{}"), Some("{}"));
    assert_eq!(payload_of_line(" \t EVENT_JSON:  {\"a\": 1} \n"), Some("{\"a\": 1}"));
    assert_eq!(payload_of_line("EVENT_JSON:"), Some(""));
    assert_eq!(payload_of_line("\u{3000}EVENT_JSON:\u{a0}x\u{2003}"), Some("x"));
    assert_eq!(payload_of_line("EVENT_JSON {}"), None);
    assert_eq!(payload_of_line("event_json:{}"), None);
    assert_eq!(payload_of_line("log EVENT_JSON:{}"), None);
    assert_eq!(payload_of_line(""), None);
    assert_eq!(payload_of_line("   "), None);
    assert_eq!(payload_of_line("EVENT_JSON:é😀 "), Some("é😀"));
}

#[test]
fn memos_are_escaped_as_the_standard_library_escapes_them() {
    for text in [
        "",
        "plain memo",
        "tab\there",
        "line\nbreak\r",
        "quote ' and \" and \\",
        "caf\u{e9}",
        "\u{1f600}",
        "\u{0}\u{1}\u{7f}\u{80}",
        "~ }",
        "\u{10ffff}",
    ] {
        assert_eq!(escape_default(text), text.escape_default().to_string());
    }
    assert_eq!(escape_default("a\tb"), "a\\tb");
    assert_eq!(escape_default("\u{e9}"), "\\u{e9}");
    assert_eq!(escape_memo(&Some("x\ny".to_string())), Some("x\\ny".to_string()));
    assert_eq!(escape_memo(&None), None);
}

#[test]
fn every_character_is_escaped_as_the_standard_library_escapes_it() {
    let mut code = 0u32;
    while code <= 0x11_0000 {
        if let Some(c) = char::from_u32(code) {
            let text = c.to_string();
            assert_eq!(escape_default(&text), text.escape_default().to_string());
        }
        code += if code < 0x3000 { 1 } else { 0x101 };
    }
}

#[test]
fn white_space_is_what_the_standard_library_trims() {
    let mut code = 0u32;
    while code < 0x3100 {
        if let Some(c) = char::from_u32(code) {
            let line = format!("{}EVENT_JSON:x{}", c, c);
            let expected = if line.trim().starts_with("EVENT_JSON:") {
                Some(line.trim()["EVENT_JSON:".len()..].trim())
            } else {
                None
            };
            assert_eq!(payload_of_line(&line), expected);
        }
        code += 1;
    }
}
