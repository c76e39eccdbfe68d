use headless_client::colons::{split_colon_aware, strip_brackets};
use headless_client::debug_log::{dump_line, dump_line_of, event_line};
use headless_client::text::{chars_of, push_decimal, push_signed, read_u16, read_u32, same_text, text_of};

#[test]
fn characters_in_and_out() {
    let v = chars_of("путь/a");
    assert_eq!(v.len(), 6);
    assert_eq!(text_of(&v, 1, 5), "уть/");
    assert_eq!(text_of(&v, 2, 2), "");
    assert!(same_text("", ""));
    assert!(same_text("--id", "--id"));
    assert!(!same_text("--id", "--ie"));
    assert!(!same_text("--id", "--i"));
}

#[test]
fn numbers_are_read() {
    assert_eq!(read_u16("0"), Some(0));
    assert_eq!(read_u16("22"), Some(22));
    assert_eq!(read_u16("65535"), Some(65535));
    assert_eq!(read_u16("+80"), Some(80));
    assert_eq!(read_u16("0000000080"), Some(80));
    assert_eq!(read_u32("4294967295"), Some(4294967295));
}

#[test]
fn other_texts_are_no_numbers() {
    for t in ["", "+", "-", "-1", "-0", " 1", "1 ", "1a", "++1", "0x10", "1_000", "65536", "99999999999999999999", "١"] {
        assert_eq!(read_u16(t), None);
    }
    assert_eq!(read_u32("4294967296"), None);
}

#[test]
fn numbers_read_as_the_standard_library_reads_them() {
    for t in ["", "+", "-", "+0", "007", "65535", "65536", "1e3", "+-1", "80\n", "٣"] {
        assert_eq!(read_u16(t), t.parse::<u16>().ok());
        assert_eq!(read_u32(t), t.parse::<u32>().ok());
    }
}

#[test]
fn numbers_are_written() {
    for n in [0u128, 9, 10, 65535, 1234567890, u128::MAX] {
        let mut out = "n=".to_string();
        push_decimal(&mut out, n);
        assert_eq!(out, format!("n={}", n));
    }
    for n in [0i64, -1, 42, i64::MIN, i64::MAX] {
        let mut out = String::new();
        push_signed(&mut out, n);
        assert_eq!(out, format!("{}", n));
    }
}

#[test]
fn written_ports_read_back() {
    for n in 0..=u16::MAX {
        let mut out = String::new();
        push_decimal(&mut out, n as u128);
        assert_eq!(read_u16(&out), Some(n));
    }
}

#[test]
fn four_parts_without_brackets() {
    assert_eq!(
        split_colon_aware("127.0.0.1:2222:localhost:22"),
        vec!["127.0.0.1", "2222", "localhost", "22"]
    );
}

#[test]
fn four_parts_with_an_ipv6_literal() {
    assert_eq!(
        split_colon_aware("[::1]:2222:localhost:22"),
        vec!["[::1]", "2222", "localhost", "22"]
    );
}

#[test]
fn odd_texts_are_split() {
    assert_eq!(split_colon_aware(""), vec![""]);
    assert_eq!(split_colon_aware(":"), vec!["", ""]);
    assert_eq!(split_colon_aware("a::b"), vec!["a", "", "b"]);
    assert_eq!(split_colon_aware("[a:b"), vec!["[a:b"]);
    assert_eq!(split_colon_aware("a]:b"), vec!["a]", "b"]);
    assert_eq!(split_colon_aware("[[a:b]:c]:d"), vec!["[[a:b]", "c]", "d"]);
}

#[test]
fn parts_joined_are_the_text() {
    for t in ["", ":", "a:b:c", "[::1]:2222:[fe80::2]:22", "[x:[y]:z:"] {
        assert_eq!(split_colon_aware(t).join(":"), t);
    }
}

#[test]
fn brackets_are_stripped_in_pairs() {
    assert_eq!(strip_brackets("[::1]"), "::1");
    assert_eq!(strip_brackets("[]"), "");
    assert_eq!(strip_brackets("["), "[");
    assert_eq!(strip_brackets("]"), "]");
    assert_eq!(strip_brackets("[a"), "[a");
    assert_eq!(strip_brackets("a]"), "a]");
    assert_eq!(strip_brackets("[[a]]"), "[a]");
    assert_eq!(strip_brackets(""), "");
    assert_eq!(strip_brackets("localhost"), "localhost");
}

#[test]
fn debug_log_lines() {
    assert_eq!(
        dump_line(1700000000123, "IN", b"\x1b[6n\r\n"),
        "1700000000123 IN 6B \"\\u{1b}[6n\\r\\n\""
    );
    assert_eq!(dump_line(3, "IN", "путь\n".as_bytes()), "3 IN 9B \"путь\\n\"");
    assert_eq!(dump_line(7, "OUT", &[0x61, 0xff, 0x62]), "7 OUT 3B \"a\u{fffd}b\"");
    assert_eq!(dump_line_of(0, "OUT", 12, "\"x\""), "0 OUT 12B \"x\"");
    assert_eq!(event_line(5, "Opened pid=42"), "5 EVENT Opened pid=42");
}

#[test]
fn parts_split_into_themselves() {
    for s in ["[::1]:2222:localhost:22", "a:b", "", ":", "x[a:b", "a]b:c[d:e"] {
        for part in split_colon_aware(s) {
            assert_eq!(split_colon_aware(&part), vec![part.clone()]);
        }
    }
    assert_eq!(split_colon_aware("x:[a:b").len(), 2);
}
