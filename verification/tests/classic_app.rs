use logq::classic::{App, ViewMode};
use logq::filter::{
    FilterCondition, FilterOp, FilterQuery, FilterSegment, FilterValue, JsonExpr, parse_filter_query,
};
use logq::pattern::Pattern;

fn plain(condition: FilterCondition) -> FilterSegment {
    FilterSegment::Plain(condition)
}

fn json(condition: FilterCondition) -> FilterSegment {
    FilterSegment::Json(JsonExpr::Condition(condition))
}

fn get_plain(query: &FilterQuery, idx: usize) -> &FilterCondition {
    match &query.segments[idx] {
        FilterSegment::Plain(c) => c,
        _ => panic!("Expected Plain segment at index {}", idx),
    }
}

fn get_json(query: &FilterQuery, idx: usize) -> &FilterCondition {
    match &query.segments[idx] {
        FilterSegment::Json(JsonExpr::Condition(c)) => c,
        _ => panic!("Expected Json Condition segment at index {}", idx),
    }
}

#[test]
fn app_test_add_line() {
    let mut app = App::new(100);
    app.add_line("line1".to_string());
    app.add_line("line2".to_string());
    assert_eq!(app.lines.len(), 2);
}

#[test]
fn app_test_add_line_timestamp() {
    let mut app = App::new(100);
    app.add_line("hello".to_string());
    let ts = &app.lines[0].timestamp;
    // Timestamp format: HH:MM:SS.mmm (12 chars)
    assert_eq!(ts.len(), 12);
    assert!(ts.chars().nth(2) == Some(':'));
    assert!(ts.chars().nth(5) == Some(':'));
    assert!(ts.chars().nth(8) == Some('.'));
}

#[test]
fn app_test_max_lines_limit() {
    let mut app = App::new(3);
    app.add_line("a".to_string());
    app.add_line("b".to_string());
    app.add_line("c".to_string());
    app.add_line("d".to_string());
    assert_eq!(
        app.lines
            .iter()
            .map(|e| e.text.as_str())
            .collect::<Vec<_>>(),
        vec!["b", "c", "d"]
    );
}

#[test]
fn app_test_max_lines_adjusts_selection() {
    let mut app = App::new(2);
    app.add_line("a".to_string());
    app.add_line("b".to_string());
    app.selected = 1;
    app.add_line("c".to_string());
    assert_eq!(
        app.lines
            .iter()
            .map(|e| e.text.as_str())
            .collect::<Vec<_>>(),
        vec!["b", "c"]
    );
    assert_eq!(app.selected, 0);
}

#[test]
fn app_test_filter_matching() {
    let mut app = App::new(100);
    app.add_line("{\"name\":\"alice\"}".to_string());
    app.add_line("plain text line".to_string());
    app.add_line("{\"name\":\"bob\"}".to_string());
    app.filter_query = Some(FilterQuery {
        segments: vec![plain(FilterCondition {
            operator: FilterOp::Contains,
            value: FilterValue::String("alice".to_string()),
            regex: None,
            json_key: None,
        })],
    });
    let filtered = app.filtered_indices();
    assert_eq!(filtered, vec![0]);
}

#[test]
fn app_test_filter_no_match() {
    let mut app = App::new(100);
    app.add_line("hello".to_string());
    app.add_line("world".to_string());
    app.filter_query = Some(FilterQuery {
        segments: vec![plain(FilterCondition {
            operator: FilterOp::Contains,
            value: FilterValue::String("xyz".to_string()),
            regex: None,
            json_key: None,
        })],
    });
    let filtered = app.filtered_indices();
    assert!(filtered.is_empty());
}

#[test]
fn app_test_filter_clear() {
    let mut app = App::new(100);
    app.add_line("hello".to_string());
    app.filter_query = Some(FilterQuery {
        segments: vec![plain(FilterCondition {
            operator: FilterOp::Contains,
            value: FilterValue::String("xyz".to_string()),
            regex: None,
            json_key: None,
        })],
    });
    assert_eq!(app.filtered_indices().len(), 0);
    app.filter_query = None;
    app.filtered_indices_cache = None;
    assert_eq!(app.filtered_indices().len(), 1);
}

#[test]
fn app_test_regex_filter_matching() {
    let mut app = App::new(100);
    app.add_line("error: connection timeout".to_string());
    app.add_line("info: request ok".to_string());
    app.add_line("error: disk full".to_string());
    app.filter_query = Some(FilterQuery {
        segments: vec![plain(FilterCondition {
            operator: FilterOp::RegexMatch,
            value: FilterValue::String("err.*timeout".to_string()),
            regex: Pattern::new("err.*timeout").ok(),
            json_key: None,
        })],
    });
    let filtered = app.filtered_indices();
    assert_eq!(filtered, vec![0]);
}

#[test]
fn app_test_move_selection() {
    let mut app = App::new(100);
    app.add_line("a".to_string());
    app.add_line("b".to_string());
    app.add_line("c".to_string());
    app.selected = 0;
    app.move_selection(1, 10);
    assert_eq!(app.selected, 1);
    app.move_selection(1, 10);
    assert_eq!(app.selected, 2);
    app.move_selection(1, 10);
    assert_eq!(app.selected, 2);
    app.move_selection(-1, 10);
    assert_eq!(app.selected, 1);
    app.move_selection(-1, 10);
    assert_eq!(app.selected, 0);
    app.move_selection(-1, 10);
    assert_eq!(app.selected, 0);
}

#[test]
fn app_test_move_selection_with_filter() {
    let mut app = App::new(100);
    app.add_line("aaa".to_string());
    app.add_line("bbb".to_string());
    app.add_line("aaa2".to_string());
    app.filter_query = Some(FilterQuery {
        segments: vec![plain(FilterCondition {
            operator: FilterOp::Contains,
            value: FilterValue::String("aaa".to_string()),
            regex: None,
            json_key: None,
        })],
    });
    let filtered = app.filtered_indices();
    assert_eq!(filtered, vec![0, 2]);

    app.selected = 0;
    app.move_selection(1, 10);
    assert_eq!(app.selected, 2);
}

#[test]
fn app_test_auto_scroll_on_latest() {
    let mut app = App::new(100);
    app.add_line("a".to_string());
    assert!(app.auto_scroll);
}

#[test]
fn app_test_auto_scroll_off_when_moving_away() {
    let mut app = App::new(100);
    app.add_line("a".to_string());
    app.add_line("b".to_string());
    app.add_line("c".to_string());
    app.move_selection(-1, 10);
    assert!(!app.auto_scroll);
}

#[test]
fn app_test_g_key_jumps_to_latest() {
    let mut app = App::new(100);
    app.add_line("a".to_string());
    app.add_line("b".to_string());
    app.add_line("c".to_string());
    app.selected = 0;
    app.auto_scroll = false;
    let filtered = app.filtered_indices();
    app.selected = filtered[filtered.len() - 1];
    app.auto_scroll = true;
    assert_eq!(app.selected, 2);
    assert!(app.auto_scroll);
}

#[test]
fn app_test_ctrl_x_quit() {
    let mut app = App::new(100);
    app.handle_ctrl_x();
    assert!(app.should_quit);
}

#[test]
fn test_view_mode_toggle() {
    let mut app = App::new(100);
    app.add_line("{\"key\":\"val\"}".to_string());
    assert_eq!(app.view_mode, ViewMode::List);
    app.view_mode = ViewMode::Detail;
    assert_eq!(app.view_mode, ViewMode::Detail);
    app.view_mode = ViewMode::List;
    assert_eq!(app.view_mode, ViewMode::List);
}

#[test]
fn app_test_vim_scroll_moves_selection() {
    let mut app = App::new(100);
    for i in 0..50 {
        app.add_line(format!("line{}", i));
    }
    app.selected = 10;
    app.scroll_offset = 10;

    app.move_selection(5, 10);
    assert_eq!(app.selected, 15);
}

#[test]
fn app_test_ensure_selection_visible() {
    let mut app = App::new(100);
    app.selected = 20;
    app.scroll_offset = 0;
    app.ensure_selection_visible(10);
    assert!(app.selected >= app.scroll_offset);
    assert!(app.selected < app.scroll_offset + 10);
}

#[test]
fn app_test_auto_scroll_updates_scroll_offset() {
    let mut app = App::new(100);
    for i in 0..50 {
        app.add_line(format!("line{}", i));
    }
    assert!(app.auto_scroll);
    app.update_auto_scroll(10);
    assert_eq!(app.selected, 49);
    assert_eq!(app.scroll_offset, 40);
}

#[test]
fn app_test_auto_scroll_disabled_no_offset_update() {
    let mut app = App::new(100);
    for i in 0..50 {
        app.add_line(format!("line{}", i));
    }
    app.auto_scroll = false;
    app.scroll_offset = 5;
    app.update_auto_scroll(10);
    assert_eq!(app.scroll_offset, 5);
}

#[test]
fn app_test_auto_scroll_with_filter() {
    let mut app = App::new(100);
    app.add_line("aaa1".to_string());
    app.add_line("bbb".to_string());
    app.add_line("aaa2".to_string());
    app.add_line("bbb2".to_string());
    app.add_line("aaa3".to_string());
    app.filter_query = Some(FilterQuery {
        segments: vec![plain(FilterCondition {
            operator: FilterOp::Contains,
            value: FilterValue::String("aaa".to_string()),
            regex: None,
            json_key: None,
        })],
    });
    app.update_auto_scroll(10);
    assert_eq!(app.selected, 4);
}

#[test]
fn app_test_add_line_performance_many_lines() {
    let mut app = App::new(10000);
    let start = std::time::Instant::now();
    for i in 0..1000 {
        app.add_line(format!("line number {} with some content", i));
    }
    let elapsed = start.elapsed();
    assert!(
        elapsed.as_millis() < 200,
        "add_line 1000x took {:?}",
        elapsed
    );
}

#[test]
fn app_test_filtered_indices_cache_avoids_recomputation() {
    let mut app = App::new(10000);
    for i in 0..10000 {
        app.add_line(format!(
            r#"{{"level":"{}","msg":"line {}"}}"#,
            if i % 3 == 0 { "error" } else { "info" },
            i
        ));
    }
    app.filter_query = Some(FilterQuery {
        segments: vec![json(FilterCondition {
            operator: FilterOp::JsonEquals,
            value: FilterValue::String("error".to_string()),
            regex: None,
            json_key: Some("level".to_string()),
        })],
    });

    // First call: computes and caches (may be slow)
    let first = app.filtered_indices();
    assert!(!first.is_empty());

    // Second call: should be served from cache (fast)
    let start = std::time::Instant::now();
    let second = app.filtered_indices();
    let cached_elapsed = start.elapsed();
    assert_eq!(first, second, "cached result should match");
    assert!(
        cached_elapsed.as_micros() < 1000,
        "cached filtered_indices took {:?}, expected < 1ms",
        cached_elapsed
    );
}

// Parser tests

#[test]
fn app_test_parse_contains() {
    let query = parse_filter_query(r#"|= "foo""#).unwrap();
    assert_eq!(query.segments.len(), 1);
    assert_eq!(get_plain(&query, 0).operator, FilterOp::Contains);
    assert_eq!(
        get_plain(&query, 0).value,
        FilterValue::String("foo".to_string())
    );
}

#[test]
fn app_test_parse_regex_match() {
    let query = parse_filter_query(r#"|~ "err.*""#).unwrap();
    assert_eq!(query.segments.len(), 1);
    assert_eq!(get_plain(&query, 0).operator, FilterOp::RegexMatch);
    assert_eq!(
        get_plain(&query, 0).value,
        FilterValue::String("err.*".to_string())
    );
    assert!(get_plain(&query, 0).regex.is_some());
}

#[test]
fn app_test_parse_not_contains() {
    let query = parse_filter_query(r#"!= "bar""#).unwrap();
    assert_eq!(query.segments.len(), 1);
    assert_eq!(get_plain(&query, 0).operator, FilterOp::NotContains);
    assert_eq!(
        get_plain(&query, 0).value,
        FilterValue::String("bar".to_string())
    );
}

#[test]
fn app_test_parse_not_regex_match() {
    let query = parse_filter_query(r#"!~ "baz""#).unwrap();
    assert_eq!(query.segments.len(), 1);
    assert_eq!(get_plain(&query, 0).operator, FilterOp::NotRegexMatch);
    assert_eq!(
        get_plain(&query, 0).value,
        FilterValue::String("baz".to_string())
    );
    assert!(get_plain(&query, 0).regex.is_some());
}

#[test]
fn app_test_parse_multiple_conditions() {
    let query = parse_filter_query(r#"|= "foo" != "bar""#).unwrap();
    assert_eq!(query.segments.len(), 2);
    assert_eq!(get_plain(&query, 0).operator, FilterOp::Contains);
    assert_eq!(
        get_plain(&query, 0).value,
        FilterValue::String("foo".to_string())
    );
    assert_eq!(get_plain(&query, 1).operator, FilterOp::NotContains);
    assert_eq!(
        get_plain(&query, 1).value,
        FilterValue::String("bar".to_string())
    );
}

#[test]
fn app_test_parse_empty_input() {
    let query = parse_filter_query("").unwrap();
    assert!(query.segments.is_empty());
}

#[test]
fn app_test_parse_whitespace_only() {
    let query = parse_filter_query("   ").unwrap();
    assert!(query.segments.is_empty());
}

#[test]
fn app_test_parse_error_unterminated_string() {
    assert!(parse_filter_query(r#"|= "foo"#).is_err());
}

#[test]
fn app_test_parse_error_missing_quotes() {
    assert!(parse_filter_query("|= foo").is_err());
}

#[test]
fn app_test_parse_error_invalid_regex() {
    assert!(parse_filter_query(r#"|~ "[invalid""#).is_err());
}

#[test]
fn app_test_query_matches_contains() {
    let query = FilterQuery {
        segments: vec![plain(FilterCondition {
            operator: FilterOp::Contains,
            value: FilterValue::String("foo".to_string()),
            regex: None,
            json_key: None,
        })],
    };
    let app = App {
        filter_query: Some(query),
        ..App::new(100)
    };
    assert!(app.line_matches_filter("foobar"));
    assert!(!app.line_matches_filter("barbaz"));
}

#[test]
fn app_test_query_matches_not_contains() {
    let query = FilterQuery {
        segments: vec![plain(FilterCondition {
            operator: FilterOp::NotContains,
            value: FilterValue::String("foo".to_string()),
            regex: None,
            json_key: None,
        })],
    };
    let app = App {
        filter_query: Some(query),
        ..App::new(100)
    };
    assert!(app.line_matches_filter("barbaz"));
    assert!(!app.line_matches_filter("foobar"));
}

#[test]
fn app_test_query_matches_regex() {
    let query = FilterQuery {
        segments: vec![plain(FilterCondition {
            operator: FilterOp::RegexMatch,
            value: FilterValue::String("err.*".to_string()),
            regex: Pattern::new("err.*").ok(),
            json_key: None,
        })],
    };
    let app = App {
        filter_query: Some(query),
        ..App::new(100)
    };
    assert!(app.line_matches_filter("error: timeout"));
    assert!(!app.line_matches_filter("info: ok"));
}

#[test]
fn app_test_query_matches_not_regex() {
    let query = FilterQuery {
        segments: vec![plain(FilterCondition {
            operator: FilterOp::NotRegexMatch,
            value: FilterValue::String("err.*".to_string()),
            regex: Pattern::new("err.*").ok(),
            json_key: None,
        })],
    };
    let app = App {
        filter_query: Some(query),
        ..App::new(100)
    };
    assert!(app.line_matches_filter("info: ok"));
    assert!(!app.line_matches_filter("error: timeout"));
}

#[test]
fn app_test_query_matches_and_semantics() {
    let query = FilterQuery {
        segments: vec![
            plain(FilterCondition {
                operator: FilterOp::Contains,
                value: FilterValue::String("error".to_string()),
                regex: None,
                json_key: None,
            }),
            plain(FilterCondition {
                operator: FilterOp::NotContains,
                value: FilterValue::String("timeout".to_string()),
                regex: None,
                json_key: None,
            }),
        ],
    };
    let app = App {
        filter_query: Some(query),
        ..App::new(100)
    };
    assert!(app.line_matches_filter("error: disk full"));
    assert!(!app.line_matches_filter("error: timeout"));
    assert!(!app.line_matches_filter("info: ok"));
}

#[test]
fn app_test_filter_query_display_string() {
    let query = FilterQuery {
        segments: vec![
            plain(FilterCondition {
                operator: FilterOp::Contains,
                value: FilterValue::String("foo".to_string()),
                regex: None,
                json_key: None,
            }),
            plain(FilterCondition {
                operator: FilterOp::NotContains,
                value: FilterValue::String("bar".to_string()),
                regex: None,
                json_key: None,
            }),
        ],
    };
    assert_eq!(query.display_string(), r#"|= "foo" != "bar""#);
}

// JSON key filter parser tests

#[test]
fn app_test_parse_json_key_equals_string() {
    let query = parse_filter_query(r#"| name = "alice""#).unwrap();
    assert_eq!(query.segments.len(), 1);
    assert_eq!(get_json(&query, 0).operator, FilterOp::JsonEquals);
    assert_eq!(
        get_json(&query, 0).value,
        FilterValue::String("alice".to_string())
    );
    assert_eq!(get_json(&query, 0).json_key, Some("name".to_string()));
    assert!(get_json(&query, 0).regex.is_none());
}

#[test]
fn app_test_parse_json_key_not_equals() {
    let query = parse_filter_query(r#"| name != "bob""#).unwrap();
    assert_eq!(query.segments.len(), 1);
    assert_eq!(get_json(&query, 0).operator, FilterOp::JsonNotEquals);
    assert_eq!(
        get_json(&query, 0).value,
        FilterValue::String("bob".to_string())
    );
    assert_eq!(get_json(&query, 0).json_key, Some("name".to_string()));
}

#[test]
fn app_test_parse_json_key_regex_match() {
    let query = parse_filter_query(r#"| msg =~ "err.*""#).unwrap();
    assert_eq!(query.segments.len(), 1);
    assert_eq!(get_json(&query, 0).operator, FilterOp::JsonRegexMatch);
    assert_eq!(
        get_json(&query, 0).value,
        FilterValue::String("err.*".to_string())
    );
    assert_eq!(get_json(&query, 0).json_key, Some("msg".to_string()));
    assert!(get_json(&query, 0).regex.is_some());
}

#[test]
fn app_test_parse_json_key_not_regex_match() {
    let query = parse_filter_query(r#"| msg !~ "err.*""#).unwrap();
    assert_eq!(query.segments.len(), 1);
    assert_eq!(get_json(&query, 0).operator, FilterOp::JsonNotRegexMatch);
    assert_eq!(
        get_json(&query, 0).value,
        FilterValue::String("err.*".to_string())
    );
    assert_eq!(get_json(&query, 0).json_key, Some("msg".to_string()));
    assert!(get_json(&query, 0).regex.is_some());
}

#[test]
fn app_test_parse_json_key_number() {
    let query = parse_filter_query(r#"| count = 42"#).unwrap();
    assert_eq!(query.segments.len(), 1);
    assert_eq!(get_json(&query, 0).operator, FilterOp::JsonEquals);
    assert_eq!(get_json(&query, 0).value, FilterValue::Number("42".to_string()));
    assert_eq!(get_json(&query, 0).json_key, Some("count".to_string()));
}

#[test]
fn app_test_parse_json_key_negative_number() {
    let query = parse_filter_query(r#"| temp = -3"#).unwrap();
    assert_eq!(query.segments.len(), 1);
    assert_eq!(get_json(&query, 0).value, FilterValue::Number("-3".to_string()));
}

#[test]
fn app_test_parse_json_key_float() {
    let query = parse_filter_query(r#"| ratio = 2.5"#).unwrap();
    assert_eq!(query.segments.len(), 1);
    assert_eq!(get_json(&query, 0).value, FilterValue::Number("2.5".to_string()));
}

#[test]
fn app_test_parse_json_key_boolean_true() {
    let query = parse_filter_query(r#"| active = true"#).unwrap();
    assert_eq!(query.segments.len(), 1);
    assert_eq!(get_json(&query, 0).value, FilterValue::Boolean(true));
}

#[test]
fn app_test_parse_json_key_boolean_false() {
    let query = parse_filter_query(r#"| active = false"#).unwrap();
    assert_eq!(query.segments.len(), 1);
    assert_eq!(get_json(&query, 0).value, FilterValue::Boolean(false));
}

#[test]
fn app_test_parse_json_key_null() {
    let query = parse_filter_query(r#"| result = null"#).unwrap();
    assert_eq!(query.segments.len(), 1);
    assert_eq!(get_json(&query, 0).value, FilterValue::Null);
}

#[test]
fn app_test_parse_json_nested_key() {
    let query = parse_filter_query(r#"| user.name = "alice""#).unwrap();
    assert_eq!(query.segments.len(), 1);
    assert_eq!(get_json(&query, 0).json_key, Some("user.name".to_string()));
}

#[test]
fn app_test_parse_mixed_filters() {
    let query = parse_filter_query(r#"|= "foo" | key1 = "value1" != "bar""#).unwrap();
    assert_eq!(query.segments.len(), 3);
    assert_eq!(get_plain(&query, 0).operator, FilterOp::Contains);
    assert_eq!(get_plain(&query, 0).json_key, None);
    assert_eq!(get_json(&query, 1).operator, FilterOp::JsonEquals);
    assert_eq!(get_json(&query, 1).json_key, Some("key1".to_string()));
    assert_eq!(get_plain(&query, 2).operator, FilterOp::NotContains);
    assert_eq!(get_plain(&query, 2).json_key, None);
}

#[test]
fn app_test_parse_json_key_with_underscore_and_hyphen() {
    let query = parse_filter_query(r#"| my_key-name = "value""#).unwrap();
    assert_eq!(
        get_json(&query, 0).json_key,
        Some("my_key-name".to_string())
    );
}

#[test]
fn app_test_parse_error_json_key_missing_value() {
    assert!(parse_filter_query(r#"| key ="#).is_err());
}

#[test]
fn app_test_parse_error_json_key_invalid_regex() {
    assert!(parse_filter_query(r#"| key =~ "[invalid""#).is_err());
}

// JSON key filter matching tests

#[test]
fn app_test_json_key_equals_string_match() {
    let query = FilterQuery {
        segments: vec![json(FilterCondition {
            operator: FilterOp::JsonEquals,
            value: FilterValue::String("alice".to_string()),
            regex: None,
            json_key: Some("name".to_string()),
        })],
    };
    let app = App {
        filter_query: Some(query),
        ..App::new(100)
    };
    assert!(app.line_matches_filter(r#"{"name":"alice"}"#));
}

#[test]
fn app_test_json_key_equals_string_no_match() {
    let query = FilterQuery {
        segments: vec![json(FilterCondition {
            operator: FilterOp::JsonEquals,
            value: FilterValue::String("bob".to_string()),
            regex: None,
            json_key: Some("name".to_string()),
        })],
    };
    let app = App {
        filter_query: Some(query),
        ..App::new(100)
    };
    assert!(!app.line_matches_filter(r#"{"name":"alice"}"#));
}

#[test]
fn app_test_json_key_not_equals() {
    let query = FilterQuery {
        segments: vec![json(FilterCondition {
            operator: FilterOp::JsonNotEquals,
            value: FilterValue::String("bob".to_string()),
            regex: None,
            json_key: Some("name".to_string()),
        })],
    };
    let app = App {
        filter_query: Some(query),
        ..App::new(100)
    };
    assert!(app.line_matches_filter(r#"{"name":"alice"}"#));
    assert!(!app.line_matches_filter(r#"{"name":"bob"}"#));
}

#[test]
fn app_test_json_key_number_match() {
    let query = FilterQuery {
        segments: vec![json(FilterCondition {
            operator: FilterOp::JsonEquals,
            value: FilterValue::Number("30.0".to_string()),
            regex: None,
            json_key: Some("age".to_string()),
        })],
    };
    let app = App {
        filter_query: Some(query),
        ..App::new(100)
    };
    assert!(app.line_matches_filter(r#"{"age":30}"#));
    assert!(!app.line_matches_filter(r#"{"age":"30"}"#));
}

#[test]
fn app_test_json_key_boolean_match() {
    let query = FilterQuery {
        segments: vec![json(FilterCondition {
            operator: FilterOp::JsonEquals,
            value: FilterValue::Boolean(true),
            regex: None,
            json_key: Some("active".to_string()),
        })],
    };
    let app = App {
        filter_query: Some(query),
        ..App::new(100)
    };
    assert!(app.line_matches_filter(r#"{"active":true}"#));
    assert!(!app.line_matches_filter(r#"{"active":false}"#));
    assert!(!app.line_matches_filter(r#"{"active":"true"}"#));
}

#[test]
fn app_test_json_key_null_match() {
    let query = FilterQuery {
        segments: vec![json(FilterCondition {
            operator: FilterOp::JsonEquals,
            value: FilterValue::Null,
            regex: None,
            json_key: Some("result".to_string()),
        })],
    };
    let app = App {
        filter_query: Some(query),
        ..App::new(100)
    };
    assert!(app.line_matches_filter(r#"{"result":null}"#));
    assert!(!app.line_matches_filter(r#"{"result":"null"}"#));
}

#[test]
fn app_test_json_key_nested_match() {
    let query = FilterQuery {
        segments: vec![json(FilterCondition {
            operator: FilterOp::JsonEquals,
            value: FilterValue::String("alice".to_string()),
            regex: None,
            json_key: Some("user.name".to_string()),
        })],
    };
    let app = App {
        filter_query: Some(query),
        ..App::new(100)
    };
    assert!(app.line_matches_filter(r#"{"user":{"name":"alice"}}"#));
    assert!(!app.line_matches_filter(r#"{"user":{"name":"bob"}}"#));
}

#[test]
fn app_test_json_key_missing_key_equals() {
    let query = FilterQuery {
        segments: vec![json(FilterCondition {
            operator: FilterOp::JsonEquals,
            value: FilterValue::String("alice".to_string()),
            regex: None,
            json_key: Some("missing".to_string()),
        })],
    };
    let app = App {
        filter_query: Some(query),
        ..App::new(100)
    };
    assert!(!app.line_matches_filter(r#"{"name":"alice"}"#));
}

#[test]
fn app_test_json_key_missing_key_not_equals() {
    let query = FilterQuery {
        segments: vec![json(FilterCondition {
            operator: FilterOp::JsonNotEquals,
            value: FilterValue::String("bob".to_string()),
            regex: None,
            json_key: Some("missing".to_string()),
        })],
    };
    let app = App {
        filter_query: Some(query),
        ..App::new(100)
    };
    // Key doesn't exist, so "not equals bob" is true
    assert!(app.line_matches_filter(r#"{"name":"alice"}"#));
}

#[test]
fn app_test_json_key_non_json_line() {
    let query = FilterQuery {
        segments: vec![json(FilterCondition {
            operator: FilterOp::JsonEquals,
            value: FilterValue::String("alice".to_string()),
            regex: None,
            json_key: Some("name".to_string()),
        })],
    };
    let app = App {
        filter_query: Some(query),
        ..App::new(100)
    };
    assert!(!app.line_matches_filter("plain text line"));
}

#[test]
fn app_test_json_key_regex_match() {
    let query = FilterQuery {
        segments: vec![json(FilterCondition {
            operator: FilterOp::JsonRegexMatch,
            value: FilterValue::String("err.*".to_string()),
            regex: Pattern::new("err.*").ok(),
            json_key: Some("msg".to_string()),
        })],
    };
    let app = App {
        filter_query: Some(query),
        ..App::new(100)
    };
    assert!(app.line_matches_filter(r#"{"msg":"error: timeout"}"#));
    assert!(!app.line_matches_filter(r#"{"msg":"info: ok"}"#));
}

#[test]
fn app_test_json_key_regex_on_number() {
    let query = FilterQuery {
        segments: vec![json(FilterCondition {
            operator: FilterOp::JsonRegexMatch,
            value: FilterValue::String("4.*".to_string()),
            regex: Pattern::new("4.*").ok(),
            json_key: Some("count".to_string()),
        })],
    };
    let app = App {
        filter_query: Some(query),
        ..App::new(100)
    };
    assert!(app.line_matches_filter(r#"{"count":42}"#));
    assert!(!app.line_matches_filter(r#"{"count":13}"#));
}

#[test]
fn app_test_mixed_filter_and_json_key() {
    let query = FilterQuery {
        segments: vec![
            plain(FilterCondition {
                operator: FilterOp::Contains,
                value: FilterValue::String("error".to_string()),
                regex: None,
                json_key: None,
            }),
            json(FilterCondition {
                operator: FilterOp::JsonEquals,
                value: FilterValue::String("timeout".to_string()),
                regex: None,
                json_key: Some("type".to_string()),
            }),
        ],
    };
    let app = App {
        filter_query: Some(query),
        ..App::new(100)
    };
    assert!(app.line_matches_filter(r#"{"type":"timeout","msg":"error occurred"}"#));
    assert!(!app.line_matches_filter(r#"{"type":"disk","msg":"error occurred"}"#));
    assert!(!app.line_matches_filter(r#"{"type":"timeout","msg":"info ok"}"#));
}

#[test]
fn app_test_json_key_display_string() {
    let query = FilterQuery {
        segments: vec![
            json(FilterCondition {
                operator: FilterOp::JsonEquals,
                value: FilterValue::String("alice".to_string()),
                regex: None,
                json_key: Some("name".to_string()),
            }),
            json(FilterCondition {
                operator: FilterOp::JsonNotEquals,
                value: FilterValue::Number("42.0".to_string()),
                regex: None,
                json_key: Some("age".to_string()),
            }),
        ],
    };
    assert_eq!(query.display_string(), r#"| name = "alice" | age != 42"#);
}

#[test]
fn app_test_json_key_display_boolean_and_null() {
    let query = FilterQuery {
        segments: vec![
            json(FilterCondition {
                operator: FilterOp::JsonEquals,
                value: FilterValue::Boolean(true),
                regex: None,
                json_key: Some("active".to_string()),
            }),
            json(FilterCondition {
                operator: FilterOp::JsonEquals,
                value: FilterValue::Null,
                regex: None,
                json_key: Some("result".to_string()),
            }),
        ],
    };
    assert_eq!(query.display_string(), "| active = true | result = null");
}

#[test]
fn app_test_live_filter_keeps_previous_valid_on_parse_error() {
    let mut app = App::new(100);
    app.add_line("foo line".to_string());
    app.add_line("bar line".to_string());
    app.add_line("foo bar line".to_string());

    // Start filter input mode with a valid query
    app.filter_input = Some(r#"|= "foo""#.to_string());
    app.update_live_filter();
    assert!(app.live_filter_query.is_some());
    assert!(app.live_filter_error.is_none());
    let filtered = app.filtered_indices();
    assert_eq!(filtered, vec![0, 2]);

    // Add invalid suffix: parse error, but previous valid query should be kept
    app.filter_input = Some(r#"|= "foo" |"#.to_string());
    app.update_live_filter();
    assert!(
        app.live_filter_query.is_some(),
        "live_filter_query should keep previous valid query on parse error"
    );
    assert!(app.live_filter_error.is_some());
    let filtered = app.filtered_indices();
    assert_eq!(
        filtered,
        vec![0, 2],
        "should still filter by previous valid query"
    );

    // Continue typing to make it valid again with two conditions
    app.filter_input = Some(r#"|= "foo" |= "bar""#.to_string());
    app.update_live_filter();
    assert!(app.live_filter_query.is_some());
    assert!(app.live_filter_error.is_none());
    let filtered = app.filtered_indices();
    assert_eq!(filtered, vec![2]);
}

#[test]
fn app_test_live_filter_no_previous_keeps_none_on_error() {
    let mut app = App::new(100);
    // No previous valid query: error with live_filter_query still None
    app.filter_input = Some("|".to_string());
    app.update_live_filter();
    assert!(app.live_filter_query.is_none());
    assert!(app.live_filter_error.is_some());
}

// and/or/parens parser tests

#[test]
fn app_test_parse_json_and() {
    let query = parse_filter_query(r#"| key1 = "foo" and key2 = "bar""#).unwrap();
    assert_eq!(query.segments.len(), 1);
    match &query.segments[0] {
        FilterSegment::Json(JsonExpr::And(l, r)) => match (l.as_ref(), r.as_ref()) {
            (JsonExpr::Condition(a), JsonExpr::Condition(b)) => {
                assert_eq!(a.json_key, Some("key1".to_string()));
                assert_eq!(b.json_key, Some("key2".to_string()));
            }
            _ => panic!("Expected Condition children"),
        },
        _ => panic!("Expected Json And segment"),
    }
}

#[test]
fn app_test_parse_json_or() {
    let query = parse_filter_query(r#"| key1 = "foo" or key2 = "bar""#).unwrap();
    assert_eq!(query.segments.len(), 1);
    match &query.segments[0] {
        FilterSegment::Json(JsonExpr::Or(l, r)) => match (l.as_ref(), r.as_ref()) {
            (JsonExpr::Condition(a), JsonExpr::Condition(b)) => {
                assert_eq!(a.json_key, Some("key1".to_string()));
                assert_eq!(b.json_key, Some("key2".to_string()));
            }
            _ => panic!("Expected Condition children"),
        },
        _ => panic!("Expected Json Or segment"),
    }
}

#[test]
fn app_test_parse_json_parens_or_and() {
    let query =
        parse_filter_query(r#"| (key1 = "foo" or key2 = "bar") and key3 = "baz""#).unwrap();
    assert_eq!(query.segments.len(), 1);
    match &query.segments[0] {
        FilterSegment::Json(JsonExpr::And(l, r)) => match (l.as_ref(), r.as_ref()) {
            (JsonExpr::Or(ll, lr), JsonExpr::Condition(c)) => {
                match (ll.as_ref(), lr.as_ref()) {
                    (JsonExpr::Condition(a), JsonExpr::Condition(b)) => {
                        assert_eq!(a.json_key, Some("key1".to_string()));
                        assert_eq!(b.json_key, Some("key2".to_string()));
                    }
                    _ => panic!("Expected Condition children in Or"),
                }
                assert_eq!(c.json_key, Some("key3".to_string()));
            }
            _ => panic!("Expected Or and Condition children"),
        },
        _ => panic!("Expected Json And segment"),
    }
}

#[test]
fn app_test_parse_plain_json_and_plain() {
    let query = parse_filter_query(r#"|= "foo" | k1 = "bar" and k2 = 10 |= "bar""#).unwrap();
    assert_eq!(query.segments.len(), 3);
    assert_eq!(get_plain(&query, 0).operator, FilterOp::Contains);
    assert_eq!(get_plain(&query, 2).operator, FilterOp::Contains);
    match &query.segments[1] {
        FilterSegment::Json(JsonExpr::And(l, r)) => match (l.as_ref(), r.as_ref()) {
            (JsonExpr::Condition(a), JsonExpr::Condition(b)) => {
                assert_eq!(a.json_key, Some("k1".to_string()));
                assert_eq!(b.json_key, Some("k2".to_string()));
                assert_eq!(b.value, FilterValue::Number("10".to_string()));
            }
            _ => panic!("Expected Condition children"),
        },
        _ => panic!("Expected Json And segment at index 1"),
    }
}

#[test]
fn app_test_parse_plain_json_or_plain() {
    let query = parse_filter_query(r#"|= "foo" | k1 = "bar" or k2 = 10 != "bar""#).unwrap();
    assert_eq!(query.segments.len(), 3);
    assert_eq!(get_plain(&query, 0).operator, FilterOp::Contains);
    assert_eq!(get_plain(&query, 2).operator, FilterOp::NotContains);
    match &query.segments[1] {
        FilterSegment::Json(JsonExpr::Or(_, _)) => {}
        _ => panic!("Expected Json Or segment at index 1"),
    }
}

#[test]
fn app_test_parse_json_grouped_or_and_plain_json() {
    let query =
        parse_filter_query(r#"|= "foo" | (k1 = "bar" or k2 = 10) != "bar" | k3 = true"#)
            .unwrap();
    assert_eq!(query.segments.len(), 4);
    assert_eq!(get_plain(&query, 0).operator, FilterOp::Contains);
    assert_eq!(get_plain(&query, 2).operator, FilterOp::NotContains);
    match &query.segments[1] {
        FilterSegment::Json(JsonExpr::Or(_, _)) => {}
        _ => panic!("Expected Json Or segment at index 1"),
    }
    match &query.segments[3] {
        FilterSegment::Json(JsonExpr::Condition(c)) => {
            assert_eq!(c.json_key, Some("k3".to_string()));
            assert_eq!(c.value, FilterValue::Boolean(true));
        }
        _ => panic!("Expected Json Condition at index 3"),
    }
}

#[test]
fn app_test_parse_error_json_and_plain() {
    assert!(parse_filter_query(r#"|= "foo" | k1 = "bar" and |= "bar""#).is_err());
}

#[test]
fn app_test_parse_error_unmatched_paren() {
    assert!(parse_filter_query(r#"| (k1 = "foo""#).is_err());
}

// and/or evaluation tests

#[test]
fn app_test_json_and_matches_both() {
    let query = FilterQuery {
        segments: vec![FilterSegment::Json(JsonExpr::And(
            Box::new(JsonExpr::Condition(FilterCondition {
                operator: FilterOp::JsonEquals,
                value: FilterValue::String("foo".to_string()),
                regex: None,
                json_key: Some("k1".to_string()),
            })),
            Box::new(JsonExpr::Condition(FilterCondition {
                operator: FilterOp::JsonEquals,
                value: FilterValue::String("bar".to_string()),
                regex: None,
                json_key: Some("k2".to_string()),
            })),
        ))],
    };
    let app = App {
        filter_query: Some(query),
        ..App::new(100)
    };
    assert!(app.line_matches_filter(r#"{"k1":"foo","k2":"bar"}"#));
    assert!(!app.line_matches_filter(r#"{"k1":"foo","k2":"baz"}"#));
    assert!(!app.line_matches_filter(r#"{"k1":"other","k2":"bar"}"#));
}

#[test]
fn app_test_json_or_matches_either() {
    let query = FilterQuery {
        segments: vec![FilterSegment::Json(JsonExpr::Or(
            Box::new(JsonExpr::Condition(FilterCondition {
                operator: FilterOp::JsonEquals,
                value: FilterValue::String("foo".to_string()),
                regex: None,
                json_key: Some("k1".to_string()),
            })),
            Box::new(JsonExpr::Condition(FilterCondition {
                operator: FilterOp::JsonEquals,
                value: FilterValue::String("bar".to_string()),
                regex: None,
                json_key: Some("k2".to_string()),
            })),
        ))],
    };
    let app = App {
        filter_query: Some(query),
        ..App::new(100)
    };
    assert!(app.line_matches_filter(r#"{"k1":"foo","k2":"baz"}"#));
    assert!(app.line_matches_filter(r#"{"k1":"other","k2":"bar"}"#));
    assert!(!app.line_matches_filter(r#"{"k1":"other","k2":"baz"}"#));
}

#[test]
fn app_test_json_or_in_parens_with_and() {
    let query = FilterQuery {
        segments: vec![FilterSegment::Json(JsonExpr::And(
            Box::new(JsonExpr::Or(
                Box::new(JsonExpr::Condition(FilterCondition {
                    operator: FilterOp::JsonEquals,
                    value: FilterValue::String("timeout".to_string()),
                    regex: None,
                    json_key: Some("type".to_string()),
                })),
                Box::new(JsonExpr::Condition(FilterCondition {
                    operator: FilterOp::JsonEquals,
                    value: FilterValue::String("disk".to_string()),
                    regex: None,
                    json_key: Some("type".to_string()),
                })),
            )),
            Box::new(JsonExpr::Condition(FilterCondition {
                operator: FilterOp::JsonEquals,
                value: FilterValue::Boolean(true),
                regex: None,
                json_key: Some("critical".to_string()),
            })),
        ))],
    };
    let app = App {
        filter_query: Some(query),
        ..App::new(100)
    };
    assert!(app.line_matches_filter(r#"{"type":"timeout","critical":true}"#));
    assert!(app.line_matches_filter(r#"{"type":"disk","critical":true}"#));
    assert!(!app.line_matches_filter(r#"{"type":"timeout","critical":false}"#));
    assert!(!app.line_matches_filter(r#"{"type":"network","critical":true}"#));
}

// and/or display tests

#[test]
fn app_test_json_and_display_string() {
    let query = FilterQuery {
        segments: vec![FilterSegment::Json(JsonExpr::And(
            Box::new(JsonExpr::Condition(FilterCondition {
                operator: FilterOp::JsonEquals,
                value: FilterValue::String("foo".to_string()),
                regex: None,
                json_key: Some("k1".to_string()),
            })),
            Box::new(JsonExpr::Condition(FilterCondition {
                operator: FilterOp::JsonEquals,
                value: FilterValue::Number("42.0".to_string()),
                regex: None,
                json_key: Some("k2".to_string()),
            })),
        ))],
    };
    assert_eq!(query.display_string(), r#"| k1 = "foo" and k2 = 42"#);
}

#[test]
fn app_test_json_or_display_string() {
    let query = FilterQuery {
        segments: vec![FilterSegment::Json(JsonExpr::Or(
            Box::new(JsonExpr::Condition(FilterCondition {
                operator: FilterOp::JsonEquals,
                value: FilterValue::String("foo".to_string()),
                regex: None,
                json_key: Some("k1".to_string()),
            })),
            Box::new(JsonExpr::Condition(FilterCondition {
                operator: FilterOp::JsonEquals,
                value: FilterValue::String("bar".to_string()),
                regex: None,
                json_key: Some("k2".to_string()),
            })),
        ))],
    };
    assert_eq!(query.display_string(), r#"| k1 = "foo" or k2 = "bar""#);
}

#[test]
fn app_test_json_or_in_and_display_string() {
    let query = FilterQuery {
        segments: vec![FilterSegment::Json(JsonExpr::And(
            Box::new(JsonExpr::Or(
                Box::new(JsonExpr::Condition(FilterCondition {
                    operator: FilterOp::JsonEquals,
                    value: FilterValue::String("foo".to_string()),
                    regex: None,
                    json_key: Some("k1".to_string()),
                })),
                Box::new(JsonExpr::Condition(FilterCondition {
                    operator: FilterOp::JsonEquals,
                    value: FilterValue::String("bar".to_string()),
                    regex: None,
                    json_key: Some("k2".to_string()),
                })),
            )),
            Box::new(JsonExpr::Condition(FilterCondition {
                operator: FilterOp::JsonEquals,
                value: FilterValue::Boolean(true),
                regex: None,
                json_key: Some("k3".to_string()),
            })),
        ))],
    };
    assert_eq!(
        query.display_string(),
        r#"| (k1 = "foo" or k2 = "bar") and k3 = true"#
    );
}

#[test]
fn e2e_test_quit() {
    let mut app = App::new(10000);
    let states = vec![
        app.script_line("line1", 24),
        app.script_line("CMD:C-c", 24),
        app.script_line("CMD:C-c", 24),
    ];
    assert_eq!(states.len(), 3);

    // First C-c: no quit
    assert!(!states[1].should_quit);
    // Second C-c: quit
    assert!(states[2].should_quit);
}

#[test]
fn ctrl_c_then_other_key_does_not_quit() {
    let mut app = App::new(10000);
    app.script_line("line1", 24);
    assert!(!app.script_line("CMD:C-c", 24).should_quit);
    assert!(!app.script_line("CMD:j", 24).should_quit);
    assert!(!app.script_line("CMD:C-c", 24).should_quit);
    assert!(app.script_line("CMD:C-c", 24).should_quit);
}
