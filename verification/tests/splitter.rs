use jsonscope::jsonreader::{JsonSplitter, SplitError};

#[test]
fn parse_single_string_literal() {
    let mut splitter = JsonSplitter::default();
    let a = "\"prop\"";
    let messages = splitter.push(a.as_bytes()).unwrap();
    assert!(messages.len() > 0);
    assert_eq!(messages[0], a);
}

#[test]
fn parse_two_string_literals() {
    let mut splitter = JsonSplitter::default();
    let a = "\"prop\"\"second\"";
    let messages = splitter.push(a.as_bytes()).unwrap();
    assert!(messages.len() == 2);
    assert_eq!(messages[0], "\"prop\"");
    assert_eq!(messages[1], "\"second\"");
}

#[test]
fn split_two_strings_with_one_having_escaped_delimiter() {
    let mut splitter = JsonSplitter::default();
    let a = "\"first\\\" part\"\"second\"";
    let messages = splitter.push(a.as_bytes()).unwrap();
    assert!(messages.len() == 2);
    assert_eq!(messages[0], "\"first\\\" part\"");
    assert_eq!(messages[1], "\"second\"");
}

#[test]
fn should_taint_on_bracket_on_not_produce_any_messages() {
    let invalid = "}";
    let valid = "\"first\"";

    let mut splitter = JsonSplitter::default();
    let messages = splitter.push(valid.as_bytes()).unwrap();
    assert!(messages.len() == 1);

    let mut splitter = JsonSplitter::default();
    let _ = splitter.push(valid.as_bytes());
    let messages = splitter.push(invalid.as_bytes());
    assert!(messages.is_err());
}

#[test]
fn parse_simple_message() {
    let mut splitter = JsonSplitter::default();
    let a = "{\"prop\": 1}";
    let messages = splitter.push(a.as_bytes()).unwrap();
    assert!(messages.len() > 0);
    assert_eq!(messages[0], a);
}

#[test]
fn parse_null() {
    let mut splitter = JsonSplitter::default();
    let a = "null";
    let messages = splitter.push_and_flush(a.as_bytes()).unwrap();
    assert!(messages.len() > 0);
    assert_eq!(messages[0], a);
}

#[test]
fn chunking_does_not_change_messages() {
    let input = "{\"prop\": [1, 2, {\"x\": \"y\"}]}\"lone\"null,";

    let mut whole = JsonSplitter::default();
    let expected = whole.push(input.as_bytes()).unwrap();

    let mut chunked = JsonSplitter::default();
    let mut collected: Vec<String> = Vec::new();
    for b in input.as_bytes() {
        collected.extend(chunked.push(&[*b]).unwrap());
    }
    assert_eq!(expected, collected);
    assert_eq!(
        expected,
        vec!["{\"prop\": [1, 2, {\"x\": \"y\"}]}", "\"lone\"", "null,"]
    );
}

#[test]
fn message_spanning_many_pushes_is_assembled() {
    let mut splitter = JsonSplitter::default();
    assert!(splitter.push(b"{\"a\"").unwrap().is_empty());
    assert!(splitter.push(b": 1").unwrap().is_empty());
    let messages = splitter.push(b"}").unwrap();
    assert_eq!(messages, vec!["{\"a\": 1}"]);
}

#[test]
fn root_level_value_keeps_its_terminator() {
    let mut splitter = JsonSplitter::default();
    let messages = splitter.push(b"true,").unwrap();
    assert_eq!(messages, vec!["true,"]);
}

#[test]
fn escape_covers_exactly_one_character() {
    let mut splitter = JsonSplitter::default();
    let messages = splitter.push(b"\"a\\nb\"").unwrap();
    assert_eq!(messages, vec!["\"a\\nb\""]);
}

#[test]
fn taint_is_sticky_across_pushes() {
    let mut splitter = JsonSplitter::default();
    assert!(matches!(splitter.push(b"]"), Err(SplitError::Tainted)));
    assert!(matches!(splitter.push(b"\"ok\""), Err(SplitError::Tainted)));
    assert!(matches!(splitter.flush(), Err(SplitError::Tainted)));
}

#[test]
fn flush_keeps_partial_aggregates() {
    let mut splitter = JsonSplitter::default();
    assert!(splitter.push(b"{\"open").unwrap().is_empty());
    assert!(splitter.flush().unwrap().is_empty());
    let messages = splitter.push(b"\": 0}").unwrap();
    assert_eq!(messages, vec!["{\"open\": 0}"]);
}

#[test]
fn whitespace_between_messages_is_dropped() {
    let mut splitter = JsonSplitter::default();
    let messages = splitter.push(b"  {\"a\":1}\n\t \"b\"").unwrap();
    assert_eq!(messages, vec!["{\"a\":1}", "\"b\""]);
}

#[test]
fn nested_closers_do_not_end_the_message_early() {
    let mut splitter = JsonSplitter::default();
    let messages = splitter.push(b"[[1, 2], {\"a\": [3]}]").unwrap();
    assert_eq!(messages, vec!["[[1, 2], {\"a\": [3]}]"]);
}

#[test]
fn is_root_level_char_accepts_the_literal_set() {
    assert!(JsonSplitter::is_root_level_char('t'));
    assert!(JsonSplitter::is_root_level_char('0'));
    assert!(JsonSplitter::is_root_level_char('9'));
    assert!(JsonSplitter::is_root_level_char('-'));
    assert!(JsonSplitter::is_root_level_char('.'));
    assert!(!JsonSplitter::is_root_level_char(','));
    assert!(!JsonSplitter::is_root_level_char('{'));
}

#[test]
fn multibyte_text_survives_decoding() {
    let mut splitter = JsonSplitter::default();
    let a = "\"héllo — ✓\"";
    let messages = splitter.push(a.as_bytes()).unwrap();
    assert_eq!(messages, vec![a]);
}
