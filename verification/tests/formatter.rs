use jsonscope::json::{FormatError, JsonFormatter};

#[test]
fn format_string_literal() {
    let mut fmt = JsonFormatter::default();
    let inp = String::from("\"This is string\"");
    let out = fmt.format(&inp).unwrap();
    assert_eq!(inp, out);
}

#[test]
fn format_string_literal_preserve_whitespace() {
    let mut fmt = JsonFormatter::default();
    let inp = String::from("\"This is string\"");
    let out = fmt.format(&inp).unwrap();
    assert_eq!(inp, out);
}

#[test]
fn format_simple_array() {
    let mut fmt = JsonFormatter::default();
    let inp = String::from("[1,2]");
    let out = fmt.format(&inp).unwrap();
    assert_eq!(inp, out);
}

#[test]
fn format_simple_array_with_line_break() {
    let mut fmt = JsonFormatter::default();
    let inp = String::from("[1,\n2]");
    let out = fmt.format(&inp).unwrap();
    assert_eq!(String::from("[1,2]"), out);
}

#[test]
fn format_rejects_backslash_outside_string() {
    let mut fmt = JsonFormatter::default();
    let inp = String::from("[1, \\n 2]");
    let out = fmt.format(&inp);
    assert!(matches!(out, Err(FormatError::UnexpectedEscape)));
}

#[test]
fn format_compacts_outside_but_not_inside_strings() {
    let mut fmt = JsonFormatter::default();
    let inp = String::from("{ \"a key\" : [1, 2] }");
    let out = fmt.format(&inp).unwrap();
    assert_eq!(out, "{\"a key\":[1,2]}");
}

#[test]
fn format_keeps_escaped_quotes() {
    let mut fmt = JsonFormatter::default();
    let inp = String::from("\"a \\\" b\" ");
    let out = fmt.format(&inp).unwrap();
    assert_eq!(out, "\"a \\\" b\"");
}

#[test]
fn format_is_idempotent_on_its_output() {
    let mut fmt = JsonFormatter::default();
    let inp = String::from("[ 1 ,\t{\"s p\": \"q\\\"r\"} , null ]");
    let once = fmt.format(&inp).unwrap();
    let twice = fmt.format(&once).unwrap();
    assert_eq!(once, twice);
}
