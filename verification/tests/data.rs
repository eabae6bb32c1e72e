use atomic_core::json;
use atomic_core::json::Json;
use atomic_core::providers::framing::Framing;
use atomic_core::providers::framing::LineBuffer;
use atomic_core::providers::framing::Step;
use atomic_core::text;

#[test]
fn values_survive_being_written_and_read() {
    let source = r#"{"a":[null,true,-3,18446744073709551615,"x\nü"],"b":{}}"#;
    let value = json::parse(source).expect("JSON");
    assert_eq!(json::parse(&json::print(&value)), Some(value.clone()));
    assert_eq!(json::print(&value), "{\"a\":[null,true,-3,18446744073709551615,\"x\\nü\"],\"b\":{}}");
    assert_eq!(json::parse("{"), None);
    assert_eq!(json::parse_bytes(&b"[1]".to_vec()), json::parse("[1]"));
    assert_eq!(json::parse_bytes(&b"\"\xff\"".to_vec()), None);
    assert_eq!(json::print_pretty(&json::parse("[1]").unwrap()), "[\n  1\n]");
}

#[test]
fn the_later_of_two_equal_keys_counts() {
    let value = Json::Object(vec![
        ("k".to_string(), Json::Natural(1)),
        ("k".to_string(), Json::Natural(2)),
    ]);
    assert_eq!(value.get("k"), Some(&Json::Natural(2)));
    assert_eq!(value.get("z"), None);
    assert_eq!(json::print(&value), "{\"k\":2}");
}

#[test]
fn numbers_are_read_as_the_standard_library_reads_them() {
    for sample in ["", "+", "-", "+7", "-7", "007", "2147483647", "2147483648", "-2147483648",
        "-2147483649", "--1", "+-1", "-+1", "1x", " 1", "99999999999999999999"] {
        assert_eq!(text::parse_i32(sample), sample.parse::<i32>().ok(), "{sample:?}");
        assert_eq!(text::parse_u64(sample), sample.parse::<u64>().ok(), "{sample:?}");
    }
}

#[test]
fn texts_are_cut_as_the_standard_library_cuts_them() {
    for sample in ["", "a", "a\n", "a\r\nb\n\n c \r", "\n", "x\u{2003}y\u{a0}z", " \t trim me \u{3000}"] {
        assert_eq!(text::split_lines(sample), sample.lines().collect::<Vec<_>>(), "{sample:?}");
        assert_eq!(
            text::split_words(sample),
            sample.split_whitespace().collect::<Vec<_>>(),
            "{sample:?}"
        );
        assert_eq!(text::trim(sample), sample.trim(), "{sample:?}");
        assert_eq!(text::is_blank(sample), sample.trim().is_empty());
        assert_eq!(text::count_char(sample, '\n'), sample.matches('\n').count());
        assert_eq!(text::contains(sample, "\n"), sample.contains('\n'));
    }
    for code in 0..0x3100u32 {
        if let Some(ch) = char::from_u32(code) {
            assert_eq!(text::is_blank(&ch.to_string()), ch.is_whitespace(), "{code:x}");
        }
    }
}

#[test]
fn a_buffer_waits_for_whole_lines() {
    let mut buffer = LineBuffer::new(Framing::Events);
    buffer.feed(&b"data: on".to_vec());
    assert_eq!(buffer.next(), Step::Wait);
    buffer.feed(&b"e\n: comment\ndata: [DONE]\n".to_vec());
    assert_eq!(buffer.next(), Step::Payload("one".to_string()));
    assert_eq!(buffer.next(), Step::End);
    assert_eq!(buffer.next(), Step::Wait);
    let mut buffer = LineBuffer::new(Framing::Lines);
    buffer.feed(&b" \n x \n".to_vec());
    assert_eq!(buffer.next(), Step::Payload("x".to_string()));
    // Bytes that are no UTF-8 are replaced, chunk by chunk.
    buffer.feed(&b"\xff\n".to_vec());
    assert_eq!(buffer.next(), Step::Payload("\u{fffd}".to_string()));
}
