use xdf_mcp::read::{hex_of, is_text, present, printable, read_output, Encoding};

#[test]
fn control_characters_are_those_of_unicode() {
    for n in 0..0x30000u32 {
        if let Some(c) = char::from_u32(n) {
            let expected = !c.is_control() || matches!(c, '\n' | '\r' | '\t');
            assert_eq!(printable(c), expected);
        }
    }
}

fn ratio_rule(text: &str) -> bool {
    let total = text.chars().count().max(1);
    let count = text
        .chars()
        .filter(|c| !c.is_control() || matches!(*c, '\n' | '\r' | '\t'))
        .count();
    count as f64 / total as f64 > 0.9
}

#[test]
fn the_threshold_is_nine_tenths() {
    for total in 0..200usize {
        for bad in 0..=total {
            let text = format!("{}{}", "x".repeat(total - bad), "\u{1}".repeat(bad));
            assert_eq!(is_text(&text), ratio_rule(&text), "{} of {}", bad, total);
        }
    }
    assert!(!is_text(""));
    assert!(!is_text("xxxxxxxxx\u{1}"));
    assert!(is_text("xxxxxxxxxx\u{1}"));
}

#[test]
fn bytes_are_written_as_two_digits_each() {
    assert_eq!(hex_of(&[]), "");
    assert_eq!(hex_of(&[0x00, 0x0f, 0xa5, 0xff]), "000fa5ff");
    let all: Vec<u8> = (0..=255).collect();
    let expected: String = all.iter().map(|b| format!("{:02x}", b)).collect();
    assert_eq!(hex_of(&all), expected);
}

#[test]
fn different_bytes_have_different_digits() {
    let mut seen: Vec<String> = Vec::new();
    for b in 0..=255u8 {
        let h = hex_of(&[b]);
        assert!(!seen.contains(&h));
        seen.push(h);
    }
}

#[test]
fn shift_jis_comes_out_as_utf8() {
    // "テスト" and a line break in Shift_JIS.
    let bytes = [0x83, 0x65, 0x83, 0x58, 0x83, 0x67, 0x0d, 0x0a];
    let out = read_output(&bytes, 65536);
    assert_eq!(out.encoding, Encoding::Utf8);
    assert_eq!(out.encoding.label(), "utf8");
    assert_eq!(out.content, "テスト\r\n");
    assert!(!out.truncated);
    assert_eq!(out.total_size, 8);
}

#[test]
fn plain_ascii_is_shown_as_it_is() {
    let text = "10 PRINT \"HELLO\\~\"\r\n\t20 END\r\n";
    let out = read_output(text.as_bytes(), 65536);
    assert_eq!(out.encoding, Encoding::Utf8);
    assert_eq!(out.content, text);
    for b in 0..128u8 {
        let out = read_output(&[b'x', b, b'x', b'x', b'x', b'x', b'x', b'x', b'x', b'x', b'x'], 99);
        assert_eq!(out.encoding, Encoding::Utf8);
        assert_eq!(out.content, format!("x{}xxxxxxxxx", b as char));
    }
}

#[test]
fn a_byte_order_mark_is_heeded() {
    let out = read_output("\u{feff}日本".as_bytes(), 65536);
    assert_eq!(out.content, "日本");
}

#[test]
fn binary_content_is_shown_in_digits() {
    let bytes = [0u8, 1, 2, 3, 4, 5, 6, 7];
    let out = read_output(&bytes, 65536);
    assert_eq!(out.encoding, Encoding::Binary);
    assert_eq!(out.encoding.label(), "binary");
    assert_eq!(out.content, "0001020304050607");
}

#[test]
fn a_long_file_is_cut_off() {
    let out = read_output(b"ABCDEFGH", 5);
    assert_eq!(out.content, "ABCDE");
    assert!(out.truncated);
    assert_eq!(out.total_size, 8);
    let exact = read_output(b"ABCDE", 5);
    assert_eq!(exact.content, "ABCDE");
    assert!(!exact.truncated);
    let none = read_output(b"ABCDE", 0);
    assert_eq!(none.encoding, Encoding::Binary);
    assert_eq!(none.content, "");
    assert!(none.truncated);
}

#[test]
fn a_larger_bound_shows_more() {
    let file = b"ABCDEFGH";
    for less in 0..10 {
        for more in less..10 {
            let a = read_output(file, less);
            let b = read_output(file, more);
            assert_eq!(a.total_size, 8);
            assert_eq!(b.total_size, 8);
            assert_eq!(a.truncated, 8 > less);
            assert_eq!(b.truncated, 8 > more);
            assert!(!b.truncated || a.truncated);
            assert!(less == 0 || b.content.starts_with(&a.content));
        }
    }
}

#[test]
fn an_empty_file_is_binary() {
    let out = read_output(b"", 65536);
    assert_eq!(out.encoding, Encoding::Binary);
    assert_eq!(out.content, "");
    assert!(!out.truncated);
    assert_eq!(out.total_size, 0);
}

#[test]
fn the_decoded_text_decides() {
    let text = present(b"\x01\x02", "fine".to_string(), true, 9);
    assert_eq!(text.encoding, Encoding::Utf8);
    assert_eq!(text.content, "fine");
    assert!(text.truncated);
    assert_eq!(text.total_size, 9);
    let digits = present(b"\x01\x02", "\u{1}\u{2}".to_string(), false, 2);
    assert_eq!(digits.encoding, Encoding::Binary);
    assert_eq!(digits.content, "0102");
}
