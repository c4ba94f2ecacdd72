use logq::classic::{App, AppState};
use logq::filter::parse_line_format_template;
use logq::highlight::find_string_end;
use logq::render::{display_width, truncate_str};

fn run_logq(input: &str) -> Vec<AppState> {
    run_logq_with_max(10000, input)
}

fn run_logq_with_max(max_lines: usize, input: &str) -> Vec<AppState> {
    let mut app = App::new(max_lines);
    input.lines().map(|line| app.script_line(line, 24)).collect()
}

#[test]
fn app_test_truncate_str() {
    assert_eq!(logq::classic::truncate_str("hello", 10), "hello");
    assert_eq!(logq::classic::truncate_str("hello world", 8), "hello wo…");
}

#[test]
fn mod_test_truncate_str() {
    assert_eq!(truncate_str("hello", 10), "hello");
    assert_eq!(truncate_str("hello world", 8), "hello w…");
    assert_eq!(truncate_str("あいうえお", 10), "あいうえお");
    assert_eq!(truncate_str("あいうえお", 5), "あい…");
    assert_eq!(truncate_str("hello世界", 9), "hello世界");
    assert_eq!(truncate_str("hello世界", 8), "hello世…");
}

#[test]
fn test_display_width() {
    assert_eq!(display_width("hello"), 5);
    assert_eq!(display_width("あいう"), 6);
    assert_eq!(display_width("hello世界"), 9);
}

#[test]
fn test_line_format_unterminated_template() {
    assert!(parse_line_format_template("{{ .a").is_err());
}

#[test]
fn test_line_format_empty_key() {
    assert!(parse_line_format_template("{{ . }}").is_err());
}

#[test]
fn test_find_string_end() {
    assert_eq!(find_string_end("\"hello\""), 7);
    assert_eq!(find_string_end("\"he\\\"llo\""), 9);
    assert_eq!(find_string_end("\"\""), 2);
}

#[test]
fn e2e_test_line_addition() {
    let states = run_logq("line1\nline2\nline3\n");
    assert_eq!(states.len(), 3);

    assert_eq!(states[0].lines, vec!["line1"]);
    assert_eq!(states[0].selected, 0);
    assert!(states[0].auto_scroll);

    assert_eq!(states[2].lines, vec!["line1", "line2", "line3"]);
    assert_eq!(states[2].selected, 2);
    assert!(states[2].auto_scroll);
}

#[test]
fn e2e_test_navigation_jk() {
    let states = run_logq("a\nb\nc\nCMD:k\nCMD:j\n");
    assert_eq!(states.len(), 5);
    assert_eq!(states[2].selected, 2);
    assert_eq!(states[3].selected, 1);
    assert!(!states[3].auto_scroll);
    assert_eq!(states[4].selected, 2);
    assert!(states[4].auto_scroll);
}

#[test]
fn e2e_test_view_switching() {
    let states = run_logq("{\"key\":\"val\"}\nCMD:Enter\nCMD:Esc\n");
    assert_eq!(states.len(), 3);
    assert_eq!(states[0].view_mode, "list");
    assert_eq!(states[1].view_mode, "detail");
    assert_eq!(states[1].detail_scroll, 0);
    assert_eq!(states[2].view_mode, "list");
}

#[test]
fn e2e_test_filter() {
    let states =
        run_logq("alpha\nbeta\nalpha2\nCMD:/\nCMD:a\nCMD:l\nCMD:p\nCMD:h\nCMD:a\nCMD:Enter\n");
    assert_eq!(states.len(), 10);
    assert_eq!(states[4].filter_input.as_deref(), Some("a"));
    assert_eq!(states[5].filter_input.as_deref(), Some("al"));
    assert_eq!(states[8].filter_input.as_deref(), Some("alpha"));
    assert_eq!(states[9].filter.as_deref(), Some("alpha"));
    assert_eq!(states[9].filtered_count, 2);
    assert_eq!(states[9].filter_input, None);
}

#[test]
fn e2e_test_auto_scroll() {
    let states = run_logq("a\nb\nc\nCMD:k\nCMD:G\n");
    assert_eq!(states.len(), 5);
    assert!(states[2].auto_scroll);
    assert!(!states[3].auto_scroll);
    assert_eq!(states[3].selected, 1);
    assert!(states[4].auto_scroll);
    assert_eq!(states[4].selected, 2);
}

#[test]
fn e2e_test_max_lines() {
    let states = run_logq_with_max(2, "a\nb\nc\n");
    assert_eq!(states.len(), 3);
    assert_eq!(states[0].lines, vec!["a"]);
    assert_eq!(states[1].lines, vec!["a", "b"]);
    assert_eq!(states[2].lines, vec!["b", "c"]);
    assert_eq!(states[2].total_lines, 2);
}

#[test]
fn e2e_test_detail_scroll() {
    let states = run_logq("{\"a\":1,\"b\":2,\"c\":3}\nCMD:Enter\nCMD:C-d\n");
    assert_eq!(states.len(), 3);
    assert_eq!(states[1].view_mode, "detail");
    assert_eq!(states[1].detail_scroll, 0);
    assert!(states[2].detail_scroll > 0);
}
