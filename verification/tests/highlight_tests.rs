use logq::highlight::{HighlightColors, find_string_end, highlight_line};

#[test]
fn test_highlight_valid_object() {
    let colors = HighlightColors::default();
    let text = highlight_line("{\"name\":\"alice\",\"age\":30}", &colors);
    assert!(
        text.lines.len() > 1,
        "Pretty-printed object should be multi-line"
    );
}

#[test]
fn test_highlight_valid_array() {
    let colors = HighlightColors::default();
    let text = highlight_line("[1,2,3]", &colors);
    assert!(
        text.lines.len() > 1,
        "Pretty-printed array should be multi-line"
    );
}

#[test]
fn test_highlight_nested_json() {
    let colors = HighlightColors::default();
    let text = highlight_line("{\"outer\":{\"inner\":\"value\"},\"arr\":[1,2]}", &colors);
    assert!(text.lines.len() > 3);
}

#[test]
fn test_highlight_invalid_json() {
    let colors = HighlightColors::default();
    let text = highlight_line("not json at all", &colors);
    assert_eq!(text.lines.len(), 1);
}

#[test]
fn test_highlight_primitive_values() {
    let colors = HighlightColors::default();
    assert_eq!(highlight_line("\"hello\"", &colors).lines.len(), 1);
    assert_eq!(highlight_line("42", &colors).lines.len(), 1);
    assert_eq!(highlight_line("true", &colors).lines.len(), 1);
    assert_eq!(highlight_line("null", &colors).lines.len(), 1);
}

#[test]
fn test_highlight_empty_structures() {
    let colors = HighlightColors::default();
    assert_eq!(highlight_line("{}", &colors).lines.len(), 1);
    assert_eq!(highlight_line("[]", &colors).lines.len(), 1);
}

#[test]
fn test_highlight_json_prefix_with_trailing_text() {
    let colors = HighlightColors::default();
    let text = highlight_line(
        r#"{"msg":"uncaught exception"}make: *** [Makefile:39: run-web2] エラー 1"#,
        &colors,
    );
    assert!(
        text.lines.len() >= 2,
        "Expected multiple lines for JSON prefix + trailing text, got {}",
        text.lines.len()
    );
    let last_line_text: String = text
        .lines
        .last()
        .unwrap()
        .spans
        .iter()
        .map(|s| s.content.as_str())
        .collect();
    assert!(
        last_line_text.contains("make:"),
        "Last line should contain the trailing text, got: {}",
        last_line_text
    );
}

#[test]
fn test_highlight_json_array_prefix_with_tail() {
    let colors = HighlightColors::default();
    let text = highlight_line("[1,2,3]some trailing text", &colors);
    assert!(text.lines.len() >= 2);
    let last_line_text: String = text
        .lines
        .last()
        .unwrap()
        .spans
        .iter()
        .map(|s| s.content.as_str())
        .collect();
    assert!(last_line_text.contains("some trailing text"));
}

#[test]
fn test_highlight_incomplete_json_is_plain() {
    let colors = HighlightColors::default();
    let text = highlight_line("{\"key\":", &colors);
    assert_eq!(text.lines.len(), 1);
}

#[test]
fn test_highlight_json_prefix_with_whitespace_gap() {
    let colors = HighlightColors::default();
    let text = highlight_line("{\"a\":1}   trailing", &colors);
    assert!(text.lines.len() >= 2);
    let last_line_text: String = text
        .lines
        .last()
        .unwrap()
        .spans
        .iter()
        .map(|s| s.content.as_str())
        .collect();
    assert!(last_line_text.contains("trailing"));
}

#[test]
fn test_highlight_json_prefix_with_multiline_trailing() {
    let colors = HighlightColors::default();
    let text = highlight_line("{\"a\":1}line1\nline2", &colors);
    assert!(
        text.lines.len() >= 3,
        "Expected at least 3 lines (1 JSON + 2 trailing), got {}",
        text.lines.len()
    );
}
