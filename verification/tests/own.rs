use logq::highlight::{HighlightColors, iter_json_tokens, json_literal_color};
use logq::style::Color;
use logq::chrome::shortcut_bar_line;
use logq::filter::{FilterError, parse_filter_query, parse_line_format_template};
use logq::input::{bytes_to_line, exit_message};
use logq::keys::{InputEvent, KeyCode, KeyEvent, NONE, TextInput};
use logq::render::{wrap_line, wrapped_text_height};
use logq::style::{Line, Span, Style};
use logq::viewer::{App, AppAction, osc52_sequence};

fn row_text(spans: &[Span]) -> String {
    spans.iter().map(|s| s.content.as_str()).collect()
}

fn err_of(q: &str) -> FilterError {
    match parse_filter_query(q) {
        Err(e) => e,
        Ok(_) => panic!("expected an error for {:?}", q),
    }
}

fn template_err(t: &str) -> FilterError {
    match parse_line_format_template(t) {
        Err(e) => e,
        Ok(_) => panic!("expected an error for {:?}", t),
    }
}

#[test]
fn own_errors_of_each_kind() {
    assert!(matches!(template_err("{{ a }}"), FilterError::ExpectedDotAfterBrace));
    assert!(matches!(template_err("{{ . }}"), FilterError::EmptyKey));
    assert!(matches!(template_err("{{ .a"), FilterError::UnterminatedBrace));
    assert!(matches!(err_of("| = \"x\""), FilterError::ExpectedKeyName { pos: 2 }));
    assert!(matches!(err_of("| key \"x\""), FilterError::ExpectedJsonOperator { pos: 6 }));
    assert!(matches!(err_of("|~ \"[\""), FilterError::InvalidRegex { .. }));
    assert!(matches!(err_of("| key ="), FilterError::ExpectedValue { .. }));
    assert!(matches!(err_of("| (a = \"b\""), FilterError::ExpectedParen));
    assert!(matches!(err_of("!"), FilterError::ExpectedOperator { pos: 0 }));
    assert!(matches!(err_of("!x"), FilterError::ExpectedTextOperator { pos: 0 }));
    assert!(matches!(err_of("|= foo"), FilterError::ExpectedQuote { .. }));
    assert!(matches!(err_of("|= \"foo"), FilterError::UnterminatedString));
    assert!(matches!(err_of("|= \"foo\\"), FilterError::UnterminatedEscape));
    assert_eq!(err_of("| (a = \"b\"").message(), "expected ')'");
    assert_eq!(err_of("!x").message(), "expected != or !~ at position 0");
}

#[test]
fn own_wrap_line_cuts_at_width() {
    let line = Line { spans: vec![Span::raw("abcdefgh".to_string())] };
    let rows = wrap_line(&line, 3);
    let texts: Vec<String> = rows.iter().map(|r| row_text(r)).collect();
    assert_eq!(texts, vec!["abc", "def", "gh"]);
}

#[test]
fn own_wrap_line_keeps_short_lines_whole() {
    let line = Line { spans: vec![Span::raw("ab".to_string()), Span::raw("cd".to_string())] };
    let rows = wrap_line(&line, 10);
    assert_eq!(rows.len(), 1);
    assert_eq!(rows[0].len(), 2);
    let empty = Line { spans: vec![] };
    assert!(wrap_line(&empty, 10).is_empty());
}

#[test]
fn own_wrap_line_wide_characters_keep_all_text() {
    // Each character takes two columns: after one, a row of three has one
    // column left, which no character fits; the row ends there.
    let line = Line { spans: vec![Span::raw("あいう".to_string())] };
    let rows = wrap_line(&line, 3);
    let texts: Vec<String> = rows.iter().map(|r| row_text(r)).collect();
    assert_eq!(texts.concat(), "あいう");
    assert_eq!(texts, vec!["あ", "い", "う"]);
    // A character wider than the whole row is placed alone.
    let rows = wrap_line(&line, 1);
    let texts: Vec<String> = rows.iter().map(|r| row_text(r)).collect();
    assert_eq!(texts, vec!["あ", "い", "う"]);
}

#[test]
fn own_wrap_line_spans_keep_their_styles() {
    let red = Style::new().fg(logq::style::Color::Red);
    let line = Line { spans: vec![Span::raw("abcd".to_string()), Span::styled("efgh".to_string(), red)] };
    let rows = wrap_line(&line, 3);
    let texts: Vec<String> = rows.iter().map(|r| row_text(r)).collect();
    assert_eq!(texts, vec!["abc", "def", "gh"]);
    assert_eq!(rows[1][0].content, "d");
    assert_eq!(rows[1][1].content, "ef");
    assert_eq!(rows[1][1].style, red);
}

#[test]
fn own_execute_command_outcomes() {
    let mut app = App::new(10);
    assert!(matches!(app.execute_command("stop"), AppAction::StopRecording));
    assert!(matches!(app.execute_command(""), AppAction::Nothing));
    assert!(app.command_error.is_none());
    match app.execute_command("record  /tmp/x.log ") {
        AppAction::StartRecording(p) => assert_eq!(p, "/tmp/x.log"),
        other => panic!("unexpected {:?}", other),
    }
    assert!(matches!(app.execute_command("record  "), AppAction::Nothing));
    assert_eq!(app.command_error.as_deref(), Some("Missing file path"));
    assert!(matches!(app.execute_command("frobnicate now"), AppAction::Nothing));
    assert_eq!(app.command_error.as_deref(), Some("Unknown command: frobnicate now"));
    app.recording_failed("permission denied");
    assert_eq!(app.command_error.as_deref(), Some("Recording failed: permission denied"));
    assert!(app.recording.is_none());
}

#[test]
fn own_command_prompt_editing() {
    let mut app = App::new(10);
    app.command_input = Some(TextInput::new("sto".to_string()));
    app.command_error = Some("old".to_string());
    app.handle_command_input(KeyEvent::new(KeyCode::Char('p'), NONE));
    assert_eq!(app.command_input.as_ref().unwrap().value(), "stop");
    assert!(app.command_error.is_none());
    let action = app.handle_command_input(KeyEvent::new(KeyCode::Enter, NONE));
    assert!(matches!(action, AppAction::StopRecording));
    assert!(app.command_input.is_none());
}

#[test]
fn own_handle_event_dispatch() {
    let mut app = App::new(10);
    app.add_line("a".to_string());
    assert_eq!(app.handle_event(InputEvent::Resize(10, 10), 80, 24), (true, AppAction::Nothing));
    assert_eq!(app.handle_event(InputEvent::Other, 80, 24), (false, AppAction::Nothing));
    let (redraw, action) = app.handle_event(InputEvent::Key(KeyEvent::new(KeyCode::Char('y'), NONE)), 80, 24);
    assert!(redraw);
    assert_eq!(action, AppAction::Copy("\u{1b}]52;c;YQ==\u{7}".to_string()));
    let (_, action) = app.handle_event(InputEvent::Key(KeyEvent::new(KeyCode::Char(':'), NONE)), 80, 24);
    assert_eq!(action, AppAction::Nothing);
    assert!(app.command_input.is_some());
}

#[test]
fn own_osc52_sequence() {
    assert_eq!(osc52_sequence("test"), "\u{1b}]52;c;dGVzdA==\u{7}");
    assert_eq!(osc52_sequence(""), "\u{1b}]52;c;\u{7}");
}

#[test]
fn own_titlebar_and_status() {
    let mut app = App::new(10);
    let title = app.titlebar_line(20);
    assert_eq!(row_text(&title.spans), format!("logq{}", " ".repeat(16)));
    app.add_line("hello".to_string());
    let status = app.status_line(20);
    assert_eq!(row_text(&status.spans), format!(" 1/1 │ FOLLOW{}", " ".repeat(7)));
    app.recording_started("out.log".to_string());
    let title = app.titlebar_line(20);
    assert_eq!(row_text(&title.spans), "logq  REC out.log   ");
}

#[test]
fn own_input_line() {
    let mut app = App::new(10);
    app.filter.filter_input = Some(TextInput::new("abc".to_string()));
    let line = app.input_line(8);
    assert_eq!(row_text(&line.spans), " abc    ");
    app.command_input = Some(TextInput::new("stop".to_string()));
    let line = app.input_line(6);
    assert_eq!(row_text(&line.spans), ":stop ");
}

#[test]
fn own_shortcut_bar_cells() {
    let app = App::new(10);
    let (row1, row2, cols, widths) = app.shortcut_items();
    assert_eq!(cols, 8);
    assert_eq!(widths, [2, 1, 5, 2, 2, 2, 2, 2]);
    assert_eq!(row1[0].key, "j");
    assert_eq!(row2[7].desc, "Help");
    let bar = shortcut_bar_line(&row1, cols, &widths, 80);
    assert_eq!(bar.spans[0].content, "j ");
    assert_eq!(bar.spans[1].content, " Move … ");
    let empty = shortcut_bar_line(&row1, 0, &widths, 5);
    assert_eq!(row_text(&empty.spans), "     ");
}

#[test]
fn own_help_layout() {
    let mut app = App::new(10);
    app.help_scroll = 100;
    let (lines, rect) = app.help_layout(80, 24);
    assert_eq!(lines.len(), 30);
    assert_eq!(rect, (16, 0, 48, 24));
    assert_eq!(app.help_scroll, 8);
    assert_eq!(row_text(&lines[0].spans), "Navigation");
    assert_eq!(row_text(&lines[1].spans), "  j / Down    Move down");
}

#[test]
fn own_list_rows_collapsed_and_expanded() {
    let mut app = App::new(10);
    app.add_line("hello".to_string());
    app.add_line(r#"{"a":1}"#.to_string());
    let rows = app.list_rows(80, 10);
    assert_eq!(rows.len(), 2);
    let first = row_text(&rows[0].spans);
    assert_eq!(&first[12..], " hello");
    app.expanded.insert(1);
    app.cache.row_layout = None;
    let rows = app.list_rows(80, 10);
    assert_eq!(rows.len(), 4);
    assert_eq!(row_text(&rows[2].spans), format!("{}  \"a\": 1", " ".repeat(13)));
    // The view follows the newest line: with two rows only the last two show.
    let rows = app.list_rows(80, 2);
    assert_eq!(rows.len(), 2);
}

#[test]
fn own_bytes_to_line() {
    assert_eq!(bytes_to_line(b"plain\r"), "plain");
    assert_eq!(bytes_to_line(&[0x41, 0xc6, 0xec, 0xd3, 0x0d]), "A\\xc6\\xec\\xd3");
}

#[test]
fn own_context_round_trip() {
    let mut app = App::new(100);
    for i in 0..10 {
        app.add_line(format!("line{}", i));
    }
    app.selected = 4;
    app.scroll_offset = 2;
    app.auto_scroll = false;
    app.expanded.insert(3);
    app.enter_context_mode(5, 67);
    assert!(app.context_mode);
    assert!(app.expanded.is_empty());
    app.exit_context_mode();
    assert!(!app.context_mode);
    assert_eq!(app.selected, 4);
    assert_eq!(app.scroll_offset, 2);
    assert!(!app.auto_scroll);
    assert!(app.expanded.contains(&3));
}

#[test]
fn own_history_keeps_newest_without_repeats() {
    let mut app = App::new(10);
    for q in ["a", "a", "b"] {
        app.filter.filter_input = Some(TextInput::new(q.to_string()));
        assert!(app.filter.apply_filter_submit());
    }
    assert_eq!(app.filter.filter_history, vec!["a", "b"]);
    for i in 0..120 {
        app.filter.filter_input = Some(TextInput::new(format!("q{}", i)));
        assert!(app.filter.apply_filter_submit());
    }
    assert_eq!(app.filter.filter_history.len(), 100);
    assert_eq!(app.filter.filter_history.last().unwrap(), "q119");
}

#[test]
fn own_line_limit() {
    let mut app = App::new(2);
    for i in 0..5 {
        app.add_line(format!("l{}", i));
        assert!(app.lines.len() <= 2);
        assert_eq!(app.lines.back().unwrap().text, format!("l{}", i));
    }
    let mut none = App::new(0);
    none.add_line("x".to_string());
    assert!(none.lines.is_empty());
}

#[test]
fn own_classic_breadcrumb_and_rows() {
    let mut app = logq::classic::App::new(10);
    assert!(app.breadcrumb_line().is_none());
    app.add_line("alpha".to_string());
    app.add_line("beta".to_string());
    app.filter_input = Some("|= \"alpha\"".to_string());
    app.handle_filter_input(KeyEvent::new(KeyCode::Enter, NONE));
    app.view_mode = logq::classic::ViewMode::Detail;
    let crumb = app.breadcrumb_line().unwrap();
    assert_eq!(row_text(&crumb.spans), "[filter: |= \"alpha\"] > [detail]");
    app.view_mode = logq::classic::ViewMode::List;
    let rows = app.list_rows(20, 5);
    assert_eq!(rows.len(), 1);
    assert!(row_text(&rows[0].spans).ends_with(" alpha"));
    let (h1, _) = app.help_lines(60);
    assert_eq!(row_text(&h1.spans).len(), 60);
    assert!(row_text(&h1.spans).starts_with(" j/k nav"));
}

#[test]
fn own_classic_input_line_counts_bytes() {
    let mut app = logq::classic::App::new(10);
    app.filter_input = Some("é".to_string());
    let line = app.input_line(6);
    // " é" takes three bytes, so three blanks follow.
    assert_eq!(row_text(&line.spans), " é   ");
    assert_eq!(app.input_cursor_x(), 3);
}

#[test]
fn text_input_typing_and_moving() {
    let mut t = TextInput::new("ac".to_string());
    assert!(t.handle_key(KeyEvent::new(KeyCode::Left, NONE)));
    assert_eq!(t.cursor(), 1);
    assert!(t.handle_key(KeyEvent::new(KeyCode::Char('b'), NONE)));
    assert_eq!(t.value(), "abc");
    assert_eq!(t.cursor(), 2);
    assert!(t.handle_key(KeyEvent::new(KeyCode::Home, NONE)));
    assert_eq!(t.cursor(), 0);
    assert!(!t.handle_key(KeyEvent::new(KeyCode::Home, NONE)));
    assert!(t.handle_key(KeyEvent::new(KeyCode::End, NONE)));
    assert_eq!(t.cursor(), 3);
    assert!(!t.handle_key(KeyEvent::new(KeyCode::Tab, NONE)));
    assert_eq!(t.value(), "abc");
}

#[test]
fn text_input_visual_cursor_counts_columns() {
    let mut t = TextInput::new("日本".to_string());
    assert_eq!(t.cursor(), 2);
    assert_eq!(t.visual_cursor(), 4);
    t.handle_key(KeyEvent::new(KeyCode::Home, NONE));
    assert_eq!(t.visual_cursor(), 0);
    let ascii = TextInput::new("abc".to_string());
    assert_eq!(ascii.visual_cursor(), 3);
}

#[test]
fn literal_color_reads_token_without_surrounding_spaces() {
    let colors = HighlightColors::default();
    assert_eq!(json_literal_color(" true", &colors), colors.boolean);
    assert_eq!(json_literal_color(" false", &colors), colors.boolean);
    assert_eq!(json_literal_color(" null", &colors), colors.null);
    assert_eq!(json_literal_color(" 42", &colors), colors.number);
    assert_eq!(json_literal_color(" nope", &colors), Color::White);
}

#[test]
fn readme_and_query_with_numeric_comparison() {
    let q = parse_filter_query(r#"| level = "error" and count > 0"#).unwrap();
    assert!(q.matches(r#"{"level":"error","count":3}"#));
    assert!(!q.matches(r#"{"level":"error","count":0}"#));
    assert!(!q.matches(r#"{"level":"info","count":3}"#));
    assert!(!q.matches(r#"{"level":"error","count":"3"}"#));
    assert!(!q.matches(r#"{"level":"error"}"#));
    assert_eq!(q.display_string(), r#"| level = "error" and count > 0"#);
}

#[test]
fn numeric_comparisons_use_decimal_values() {
    let ge = parse_filter_query("| n >= 1.5").unwrap();
    assert!(ge.matches(r#"{"n":1.50}"#));
    assert!(ge.matches(r#"{"n":2}"#));
    assert!(!ge.matches(r#"{"n":1.25}"#));
    let lt = parse_filter_query("| n < -2").unwrap();
    assert!(lt.matches(r#"{"n":-10}"#));
    assert!(!lt.matches(r#"{"n":-2}"#));
    assert!(!lt.matches(r#"{"n":0}"#));
    let le = parse_filter_query("| n <= 100").unwrap();
    assert!(le.matches(r#"{"n":100}"#));
    assert!(le.matches(r#"{"n":99.999}"#));
    assert!(!le.matches(r#"{"n":100.001}"#));
    assert!(!le.matches(r#"{"n":true}"#));
    assert_eq!(le.display_string(), "| n <= 100");
}

#[test]
fn token_stream_ends_and_covers_the_text() {
    let input = "{\"a\": true, \"b\": [1, null]}";
    let mut it = iter_json_tokens(input);
    let mut joined = String::new();
    let mut count = 0;
    while let Some((_, tok)) = it.next() {
        assert!(!tok.is_empty());
        joined.push_str(tok);
        count += 1;
    }
    assert_eq!(joined, input);
    assert!(count <= input.len());
    assert!(it.next().is_none());
    assert!(it.next().is_none());
}

#[test]
fn exit_message_reports_how_the_command_ended() {
    assert_eq!(exit_message(true, Some(0)), "process exited successfully");
    assert_eq!(exit_message(false, Some(2)), "process exited with code 2");
    assert_eq!(exit_message(false, Some(-1)), "process exited with code -1");
    assert_eq!(exit_message(false, None), "process terminated by signal");
}

#[test]
fn plain_query_prints_and_reads_back() {
    let q = parse_filter_query(r#"|= "foo"   !~ "ba+r"  !=   "x y""#).unwrap();
    let shown = q.display_string();
    assert_eq!(shown, r#"|= "foo" !~ "ba+r" != "x y""#);
    let again = parse_filter_query(&shown).unwrap();
    assert_eq!(again.display_string(), shown);
    for line in ["foo", "foo bar", "foo baar", "foo x y", "nothing"] {
        assert_eq!(again.matches(line), q.matches(line));
    }
}

#[test]
fn truncation_of_joined_letters_does_not_fail() {
    // "لا" is one column wide although it is two grapheme clusters.
    assert_eq!(logq::render::truncate_str("لاbbb", 3), "لاb…");
    assert_eq!(logq::render::truncate_str("hello world", 6), "hello…");
    assert_eq!(logq::render::truncate_str("日本語テキスト", 5), "日本…");
    let (kept, w) = logq::render::cut_to_width("ab\u{301}cd", 2);
    assert_eq!(kept, "ab\u{301}");
    assert_eq!(w, 2);
}

#[test]
fn wrapped_rows_match_height_for_ascii() {
    let line = Line { spans: vec![Span::raw("hello".to_string()), Span::raw(" world".to_string())] };
    let rows = wrap_line(&line, 5);
    let texts: Vec<String> = rows.iter().map(|r| row_text(r)).collect();
    assert_eq!(texts, vec!["hello", " worl", "d"]);
    let text = logq::style::Text { lines: vec![Line { spans: vec![Span::raw("hello world".to_string())] }] };
    assert_eq!(wrapped_text_height(&text, 5), 3);
    for w in 1..15 {
        let rows = wrap_line(&line, w);
        assert_eq!(rows.len().max(1), wrapped_text_height(&text, w));
    }
}
