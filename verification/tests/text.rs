use botnana::endpoint::{endpoint_parses, push_decimal, ws_url_of};
use botnana::frame::{key_parts, parse_frame, strip_frame};
use botnana::json::{evaluate_request, poll_request, wrap_script};
use botnana::text::{chars_of, is_space, parse_index, split_at, string_from, string_of};

fn chars(s: &str) -> Vec<char> {
    s.chars().collect()
}

#[test]
fn characters_and_strings_convert_both_ways() {
    assert_eq!(chars_of("aé値"), vec!['a', 'é', '値']);
    assert_eq!(string_from(&chars("aé値")), "aé値");
    assert_eq!(string_of(&chars("hello"), 1, 3), "el");
    assert_eq!(chars_of(""), Vec::<char>::new());
}

#[test]
fn split_keeps_empty_pieces() {
    assert_eq!(split_at(&chars("a|b||c|"), '|'), vec![chars("a"), chars("b"), chars(""), chars("c"), chars("")]);
    assert_eq!(split_at(&chars(""), '|'), vec![chars("")]);
    assert_eq!(split_at(&chars("abc"), '|'), vec![chars("abc")]);
}

#[test]
fn white_space_is_the_unicode_property() {
    for c in [' ', '\t', '\n', '\r', '\u{b}', '\u{c}', '\u{85}', '\u{a0}', '\u{1680}', '\u{2000}', '\u{200a}', '\u{2028}', '\u{2029}', '\u{202f}', '\u{205f}', '\u{3000}'] {
        assert!(is_space(c));
    }
    for c in ['a', '|', '\u{0}', '\u{8}', '\u{e}', '\u{200b}', '\u{feff}', '\u{180e}'] {
        assert!(!is_space(c));
    }
}

#[test]
fn white_space_agrees_with_std() {
    let mut u: u32 = 0;
    while u < 0x11000 {
        if let Some(c) = char::from_u32(u) {
            assert_eq!(is_space(c), c.is_whitespace());
        }
        u += 1;
    }
}

#[test]
fn index_agrees_with_std_parse() {
    for s in ["0", "7", "007", "+7", "-7", "+", "", " 7", "7 ", "4294967295", "4294967296", "1x", "٣", "99999999999999999999"] {
        let expected = s.parse::<u32>().unwrap_or(0) as u64;
        assert_eq!(parse_index(&chars(s), u32::MAX as u64), expected);
        let expected = s.parse::<u64>().unwrap_or(0);
        assert_eq!(parse_index(&chars(s), u64::MAX), expected);
    }
}

#[test]
fn index_exact_values() {
    assert_eq!(parse_index(&chars("121"), 200), 121);
    assert_eq!(parse_index(&chars("200"), 200), 200);
    assert_eq!(parse_index(&chars("201"), 200), 0);
    assert_eq!(parse_index(&chars("18446744073709551615"), u64::MAX), 18446744073709551615);
    assert_eq!(parse_index(&chars("18446744073709551616"), u64::MAX), 0);
}

#[test]
fn frame_is_stripped_of_white_space_then_markers() {
    assert_eq!(strip_frame(&chars("  ||a|b")), chars("a|b"));
    assert_eq!(strip_frame(&chars("| a")), chars(" a"));
    assert_eq!(strip_frame(&chars("a  ")), chars("a  "));
    assert_eq!(strip_frame(&chars(" \t|")), chars(""));
}

#[test]
fn frame_events_in_order() {
    let events = parse_frame(&chars("a.1|x| b|y|c\n\nd||e"));
    let pairs: Vec<(String, String)> =
        events.iter().map(|e| (e.key.iter().collect(), e.value.iter().collect())).collect();
    assert_eq!(
        pairs,
        vec![
            ("a.1".to_string(), "x".to_string()),
            ("b".to_string(), "y".to_string()),
            ("d".to_string(), "".to_string()),
        ]
    );
}

#[test]
fn key_parts_of_event_keys() {
    let p = key_parts(&chars("name.3.4.5"));
    assert_eq!((p.name, p.slot0, p.slot1), (chars("name"), chars("3"), chars("4")));
    let p = key_parts(&chars("name.3"));
    assert_eq!((p.name, p.slot0, p.slot1), (chars("name"), chars(""), chars("3")));
    let p = key_parts(&chars(""));
    assert_eq!((p.name, p.slot0, p.slot1), (chars(""), chars(""), chars("")));
    let p = key_parts(&chars(".x."));
    assert_eq!((p.name, p.slot0, p.slot1), (chars(""), chars("x"), chars("")));
}

#[test]
fn decimal_text_of_ports() {
    for n in [0u16, 7, 10, 99, 100, 502, 3012, 9999, 10000, 65535] {
        let mut s = String::from("p");
        push_decimal(&mut s, n);
        assert_eq!(s, format!("p{}", n));
    }
    assert_eq!(ws_url_of("h", 80), "ws://h:80");
}

#[test]
fn endpoint_must_parse_as_a_url() {
    assert!(endpoint_parses("192.168.7.2", 3012));
    assert!(endpoint_parses("[::1]", 1));
    assert!(!endpoint_parses("a b", 3012));
    assert!(!endpoint_parses("", 3012));
}

#[test]
fn requests_have_the_fixed_shapes() {
    assert_eq!(poll_request(), "{\"jsonrpc\":\"2.0\",\"method\":\"motion.poll\"}");
    assert_eq!(
        wrap_script("\"x\""),
        "{\"jsonrpc\":\"2.0\",\"method\":\"script.evaluate\",\"params\":{\"script\":\"x\"}}"
    );
    assert_eq!(
        evaluate_request("tab\there \u{1} é"),
        Some(
            "{\"jsonrpc\":\"2.0\",\"method\":\"script.evaluate\",\"params\":{\"script\":\"tab\\there \\u0001 é\"}}"
                .to_string()
        )
    );
}
