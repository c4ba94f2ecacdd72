use logq::classic::{App, ViewMode};
use logq::keys::{CONTROL, InputEvent, KeyCode, KeyEvent, NONE};
use logq::style;
use ratatui::Terminal;
use ratatui::backend::TestBackend;
use ratatui::layout::{Constraint, Direction, Layout};
use ratatui::style::{Color, Modifier, Style};
use ratatui::text::{Line, Span, Text};
use ratatui::widgets::{Paragraph, Wrap};

const WIDTH: u16 = 80;
const HEIGHT: u16 = 24;

fn color(c: style::Color) -> Color {
    match c {
        style::Color::Reset => Color::Reset,
        style::Color::Black => Color::Black,
        style::Color::Red => Color::Red,
        style::Color::Green => Color::Green,
        style::Color::Yellow => Color::Yellow,
        style::Color::Blue => Color::Blue,
        style::Color::Magenta => Color::Magenta,
        style::Color::Cyan => Color::Cyan,
        style::Color::Gray => Color::Gray,
        style::Color::DarkGray => Color::DarkGray,
        style::Color::LightRed => Color::LightRed,
        style::Color::LightGreen => Color::LightGreen,
        style::Color::LightYellow => Color::LightYellow,
        style::Color::LightBlue => Color::LightBlue,
        style::Color::LightMagenta => Color::LightMagenta,
        style::Color::LightCyan => Color::LightCyan,
        style::Color::White => Color::White,
        style::Color::Rgb(r, g, b) => Color::Rgb(r, g, b),
        style::Color::Indexed(i) => Color::Indexed(i),
    }
}

fn to_style(s: style::Style) -> Style {
    let mut out = Style::default();
    if let Some(c) = s.fg {
        out = out.fg(color(c));
    }
    if let Some(c) = s.bg {
        out = out.bg(color(c));
    }
    out.remove_modifier(Modifier::from_bits_truncate(s.sub_modifier))
        .add_modifier(Modifier::from_bits_truncate(s.add_modifier))
}

fn to_line(l: style::Line) -> Line<'static> {
    Line::from(
        l.spans
            .into_iter()
            .map(|s| Span::styled(s.content, to_style(s.style)))
            .collect::<Vec<_>>(),
    )
}

fn to_text(rows: Vec<style::Line>) -> Text<'static> {
    Text::from(rows.into_iter().map(to_line).collect::<Vec<_>>())
}

/// Draws the two-view viewer as its front end lays it out.
fn draw(app: &mut App, frame: &mut ratatui::Frame) {
    let area = frame.area();
    let input_mode = app.filter_input.is_some();
    let mut constraints = vec![Constraint::Length(1), Constraint::Min(0)];
    if input_mode {
        constraints.push(Constraint::Length(1));
    }
    constraints.extend([Constraint::Length(1), Constraint::Length(1)]);
    let chunks = Layout::default()
        .direction(Direction::Vertical)
        .constraints(constraints)
        .split(area);
    if let Some(l) = app.breadcrumb_line() {
        frame.render_widget(Paragraph::new(to_line(l)), chunks[0]);
    }
    match app.view_mode {
        ViewMode::List => {
            let rows = app.list_rows(chunks[1].width as usize, chunks[1].height as usize);
            frame.render_widget(Paragraph::new(to_text(rows)), chunks[1]);
        }
        ViewMode::Detail => {
            if let Some(t) = app.detail_text() {
                let text = to_text(t.lines);
                frame.render_widget(
                    Paragraph::new(text).scroll((app.detail_scroll, 0)).wrap(Wrap { trim: false }),
                    chunks[1],
                );
            }
        }
    }
    let mut next = 2;
    if input_mode {
        frame.render_widget(Paragraph::new(to_line(app.input_line(chunks[2].width as usize))), chunks[2]);
        frame.set_cursor_position((app.input_cursor_x(), chunks[2].y));
        next = 3;
    }
    let (h1, h2) = app.help_lines(chunks[next].width as usize);
    frame.render_widget(Paragraph::new(to_line(h1)), chunks[next]);
    frame.render_widget(Paragraph::new(to_line(h2)), chunks[next + 1]);
}

struct TestApp {
    app: App,
    terminal: Terminal<TestBackend>,
}

impl TestApp {
    fn new(max_lines: usize) -> Self {
        Self::new_with_size(max_lines, WIDTH, HEIGHT)
    }

    fn new_with_size(max_lines: usize, width: u16, height: u16) -> Self {
        let backend = TestBackend::new(width, height);
        let terminal = Terminal::new(backend).unwrap();
        let app = App::new(max_lines);
        Self { app, terminal }
    }

    fn add_line(&mut self, line: &str) {
        self.app.add_line(line.to_string());
    }

    fn press(&mut self, code: KeyCode, modifiers: u8) {
        let event = InputEvent::Key(KeyEvent::new(code, modifiers));
        self.app.handle_event(event, HEIGHT);
    }

    fn render(&mut self) {
        let app = &mut self.app;
        self.terminal.draw(|f| draw(app, f)).unwrap();
    }

    /// Returns the text content of a single row (all cells concatenated).
    fn row_text(&self, row: u16) -> String {
        let buffer = self.terminal.backend().buffer();
        let mut line = String::new();
        for col in 0..buffer.area.width {
            line.push_str(buffer[(col, row)].symbol());
        }
        line
    }

    /// Checks if any row in the buffer contains the given text.
    fn screen_contains(&self, text: &str) -> bool {
        for row in 0..self.terminal.backend().buffer().area.height {
            if self.row_text(row).contains(text) {
                return true;
            }
        }
        false
    }
}

#[test]
fn integration_test_line_addition() {
    let mut t = TestApp::new(10000);
    t.add_line("line1");
    t.render();

    assert!(t.screen_contains("line1"));
    assert_eq!(t.app.selected, 0);
    assert!(t.app.auto_scroll);

    t.add_line("line2");
    t.add_line("line3");
    t.render();

    assert!(t.screen_contains("line1"));
    assert!(t.screen_contains("line2"));
    assert!(t.screen_contains("line3"));
    assert_eq!(t.app.selected, 2);
}

#[test]
fn integration_test_navigation_jk() {
    let mut t = TestApp::new(10000);
    t.add_line("a");
    t.add_line("b");
    t.add_line("c");
    t.render();

    assert_eq!(t.app.selected, 2);

    t.press(KeyCode::Char('k'), NONE);
    t.render();
    assert_eq!(t.app.selected, 1);
    assert!(!t.app.auto_scroll);

    t.press(KeyCode::Char('j'), NONE);
    t.render();
    assert_eq!(t.app.selected, 2);
    assert!(t.app.auto_scroll);
}

#[test]
fn integration_test_view_switching() {
    let mut t = TestApp::new(10000);
    t.add_line("{\"key\":\"val\"}");
    t.render();

    // List view: no [detail] breadcrumb
    assert!(!t.screen_contains("[detail]"));

    t.press(KeyCode::Enter, NONE);
    t.render();
    assert_eq!(t.app.view_mode, ViewMode::Detail);
    assert!(t.screen_contains("[detail]"));

    t.press(KeyCode::Esc, NONE);
    t.render();
    assert_eq!(t.app.view_mode, ViewMode::List);
    assert!(!t.screen_contains("[detail]"));
}

#[test]
fn integration_test_filter() {
    let mut t = TestApp::new(10000);
    t.add_line("alpha");
    t.add_line("beta");
    t.add_line("alpha2");
    t.render();

    // Enter filter mode
    t.press(KeyCode::Char('/'), NONE);
    t.render();

    // Type |= "alpha"
    for c in "|= \"alpha\"".chars() {
        t.press(KeyCode::Char(c), NONE);
    }
    t.render();

    // Status bar should show filter input
    assert!(t.screen_contains("|="));

    // Apply filter
    t.press(KeyCode::Enter, NONE);
    t.render();

    // Breadcrumb shows filter, content filtered
    assert!(t.screen_contains("[filter:"));
    assert!(t.screen_contains("alpha"));
    assert!(!t.screen_contains("beta"));
}

#[test]
fn integration_test_auto_scroll() {
    let mut t = TestApp::new(10000);
    t.add_line("a");
    t.add_line("b");
    t.add_line("c");
    t.render();

    assert!(t.app.auto_scroll);

    t.press(KeyCode::Char('k'), NONE);
    t.render();
    assert!(!t.app.auto_scroll);
    assert_eq!(t.app.selected, 1);

    t.press(KeyCode::Char('G'), NONE);
    t.render();
    assert!(t.app.auto_scroll);
    assert_eq!(t.app.selected, 2);
}

#[test]
fn integration_test_quit() {
    let mut t = TestApp::new(10000);
    t.add_line("line1");
    t.render();

    t.press(KeyCode::Char('x'), CONTROL);
    assert!(t.app.should_quit);
}

#[test]
fn integration_test_max_lines() {
    let mut t = TestApp::new(2);
    t.add_line("line_a");
    t.add_line("line_b");
    t.add_line("line_c");
    t.render();

    assert_eq!(t.app.lines.len(), 2);
    assert!(t.screen_contains("line_b"));
    assert!(t.screen_contains("line_c"));
    assert!(!t.screen_contains("line_a"));
}

#[test]
fn integration_test_detail_scroll() {
    let mut t = TestApp::new(10000);
    t.add_line(
        "{\"a\":1,\"b\":2,\"c\":3,\"d\":4,\"e\":5,\"f\":6,\"g\":7,\"h\":8,\"i\":9,\"j\":10}",
    );
    t.render();

    t.press(KeyCode::Enter, NONE);
    t.render();
    assert_eq!(t.app.view_mode, ViewMode::Detail);
    assert!(t.screen_contains("[detail]"));
    assert_eq!(t.app.detail_scroll, 0);

    t.press(KeyCode::Char('d'), CONTROL);
    t.render();
    assert!(t.app.detail_scroll > 0);
}

#[test]
fn test_quit_with_no_input() {
    let mut t = TestApp::new(10000);
    t.render();

    t.press(KeyCode::Char('x'), CONTROL);
    assert!(t.app.should_quit);
}

#[test]
fn test_auto_scroll_follows_rapid_input() {
    let mut t = TestApp::new(10000);
    for i in 0..100 {
        t.add_line(&format!("line{}", i));
    }
    t.render();

    assert!(t.app.auto_scroll);
    assert_eq!(t.app.selected, 99);
    assert_eq!(t.app.lines.len(), 100);
    assert!(t.screen_contains("line99"));
}

#[test]
fn test_regex_filter() {
    let mut t = TestApp::new(10000);
    t.add_line("error timeout");
    t.add_line("info ok");
    t.add_line("error disk");
    t.render();

    // Type filter: /|~ "err.*timeout"
    t.press(KeyCode::Char('/'), NONE);
    for c in "|~ \"err.*timeout\"".chars() {
        t.press(KeyCode::Char(c), NONE);
    }
    t.press(KeyCode::Enter, NONE);
    t.render();

    assert!(t.screen_contains("[filter:"));
    assert!(t.screen_contains("error timeout"));
    assert!(!t.screen_contains("info ok"));
    assert!(!t.screen_contains("error disk"));
}

#[test]
fn test_not_contains_filter() {
    let mut t = TestApp::new(10000);
    t.add_line("error timeout");
    t.add_line("info ok");
    t.add_line("warn slow");
    t.render();

    // Type filter: /!= "error"
    t.press(KeyCode::Char('/'), NONE);
    for c in "!= \"error\"".chars() {
        t.press(KeyCode::Char(c), NONE);
    }
    t.press(KeyCode::Enter, NONE);
    t.render();

    assert!(t.screen_contains("[filter:"));
    assert!(t.screen_contains("info ok"));
    assert!(t.screen_contains("warn slow"));
    assert!(!t.screen_contains("error timeout"));
}

#[test]
fn test_not_regex_filter() {
    let mut t = TestApp::new(10000);
    t.add_line("error timeout");
    t.add_line("info ok");
    t.add_line("warn slow");
    t.render();

    // Type filter: /!~ "err.*"
    t.press(KeyCode::Char('/'), NONE);
    for c in "!~ \"err.*\"".chars() {
        t.press(KeyCode::Char(c), NONE);
    }
    t.press(KeyCode::Enter, NONE);
    t.render();

    assert!(t.screen_contains("[filter:"));
    assert!(t.screen_contains("info ok"));
    assert!(t.screen_contains("warn slow"));
    assert!(!t.screen_contains("error timeout"));
}

#[test]
fn test_multiple_conditions_filter() {
    let mut t = TestApp::new(10000);
    t.add_line("error timeout");
    t.add_line("error disk");
    t.add_line("info ok");
    t.render();

    // Type filter: /|= "error" != "timeout"
    t.press(KeyCode::Char('/'), NONE);
    for c in "|= \"error\" != \"timeout\"".chars() {
        t.press(KeyCode::Char(c), NONE);
    }
    t.press(KeyCode::Enter, NONE);
    t.render();

    assert!(t.screen_contains("[filter:"));
    assert!(t.screen_contains("error disk"));
    assert!(!t.screen_contains("error timeout"));
    assert!(!t.screen_contains("info ok"));
}

#[test]
fn test_filter_backspace_nonempty_removes_char() {
    let mut t = TestApp::new(10000);
    t.add_line("hello");
    t.render();

    t.press(KeyCode::Char('/'), NONE);
    for c in "|=".chars() {
        t.press(KeyCode::Char(c), NONE);
    }
    t.render();
    assert!(t.screen_contains("|="));

    // Backspace should remove last char, not cancel
    t.press(KeyCode::Backspace, NONE);
    t.render();
    assert!(t.app.filter_input.is_some());
}

#[test]
fn test_filter_esc_cancels() {
    let mut t = TestApp::new(10000);
    t.add_line("hello");
    t.render();

    t.press(KeyCode::Char('/'), NONE);
    for c in "|= \"test\"".chars() {
        t.press(KeyCode::Char(c), NONE);
    }
    assert!(t.app.filter_input.is_some());

    // Esc should always cancel filter input, even with text
    t.press(KeyCode::Esc, NONE);
    assert!(t.app.filter_input.is_none());
}

#[test]
fn test_filter_input_no_slash_displayed() {
    let mut t = TestApp::new(10000);
    t.add_line("hello");
    t.render();

    t.press(KeyCode::Char('/'), NONE);
    t.render();

    // Input line (3rd from bottom) should NOT contain "/" prefix
    // Layout: breadcrumb + content + input_line + help1 + help2
    let input_row = HEIGHT - 3;
    let input_text = t.row_text(input_row);
    // Input line should start with a space (no "/" prefix)
    assert!(
        input_text.starts_with(' '),
        "input line should start with space, got: {:?}",
        &input_text[..input_text.len().min(20)]
    );
    assert!(
        !input_text.starts_with(" /"),
        "input line should not start with ' /', got: {:?}",
        &input_text[..input_text.len().min(20)]
    );
}

#[test]
fn test_filter_ctrl_c_cancels() {
    let mut t = TestApp::new(10000);
    t.add_line("hello");
    t.render();

    t.press(KeyCode::Char('/'), NONE);
    for c in "|= \"test\"".chars() {
        t.press(KeyCode::Char(c), NONE);
    }
    assert!(t.app.filter_input.is_some());

    // Ctrl-C should cancel filter input mode
    t.press(KeyCode::Char('c'), CONTROL);
    assert!(t.app.filter_input.is_none());
}

#[test]
fn test_escape_clears_filter() {
    let mut t = TestApp::new(10000);
    t.add_line("alpha");
    t.add_line("beta");
    t.add_line("alpha2");
    t.render();

    // Apply filter |= "alpha"
    t.press(KeyCode::Char('/'), NONE);
    for c in "|= \"alpha\"".chars() {
        t.press(KeyCode::Char(c), NONE);
    }
    t.press(KeyCode::Enter, NONE);
    t.render();
    assert!(t.screen_contains("[filter:"));

    // Esc clears filter
    t.press(KeyCode::Esc, NONE);
    t.render();
    assert!(!t.screen_contains("[filter:"));
    assert!(t.screen_contains("beta"));
}

#[test]
fn test_filter_parse_error_shown() {
    let mut t = TestApp::new(10000);
    t.add_line("hello");
    t.render();

    // Type invalid filter (unterminated string)
    t.press(KeyCode::Char('/'), NONE);
    for c in "|= \"foo".chars() {
        t.press(KeyCode::Char(c), NONE);
    }
    t.press(KeyCode::Enter, NONE);
    t.render();

    // Error should be shown, input preserved
    assert!(t.app.filter_input.is_some());
    assert!(t.screen_contains("Error:"));
}

#[test]
fn test_filter_parse_error_then_fix() {
    let mut t = TestApp::new(10000);
    t.add_line("foobar");
    t.add_line("bazqux");
    t.render();

    // Type invalid filter
    t.press(KeyCode::Char('/'), NONE);
    for c in "|= \"foo".chars() {
        t.press(KeyCode::Char(c), NONE);
    }
    t.press(KeyCode::Enter, NONE);
    t.render();

    // Error shown, input preserved
    assert!(t.app.filter_input.is_some());

    // Fix: type closing quote
    t.press(KeyCode::Char('"'), NONE);
    t.press(KeyCode::Enter, NONE);
    t.render();

    // Filter applied
    assert!(t.app.filter_input.is_none());
    assert!(t.screen_contains("[filter:"));
    assert!(t.screen_contains("foobar"));
    assert!(!t.screen_contains("bazqux"));
}

#[test]
fn test_filter_history_no_duplicate() {
    let mut t = TestApp::new(10000);
    t.add_line("hello world");
    t.render();

    // Apply same filter twice
    for _ in 0..2 {
        t.press(KeyCode::Char('/'), NONE);
        for c in r#"|= "hello""#.chars() {
            t.press(KeyCode::Char(c), NONE);
        }
        t.press(KeyCode::Enter, NONE);
    }
    t.render();
    // Filter should still be applied — breadcrumb shows [filter: |= "hello"]
    assert!(t.screen_contains(r#"|= "hello""#));
    assert!(t.screen_contains("[filter:"));
}

#[test]
fn test_live_filter_on_type() {
    let mut t = TestApp::new(10000);
    t.add_line("hello world");
    t.add_line("foo bar");
    t.add_line("hello foo");
    t.render();

    // Enter filter mode and type
    t.press(KeyCode::Char('/'), NONE);
    for c in r#"|= "hello""#.chars() {
        t.press(KeyCode::Char(c), NONE);
    }
    t.render();

    // Live filter should be active — only matching lines visible
    assert!(t.screen_contains("hello world"));
    assert!(!t.screen_contains("foo bar"));
    assert!(t.screen_contains("hello foo"));
}

#[test]
fn test_live_filter_error_shown() {
    let mut t = TestApp::new(10000);
    t.add_line("hello");
    t.render();

    t.press(KeyCode::Char('/'), NONE);
    // Type an invalid query (missing closing quote)
    for c in "|= \"foo".chars() {
        t.press(KeyCode::Char(c), NONE);
    }
    t.render();

    assert!(t.screen_contains("Error:"));
}

#[test]
fn test_detail_q_returns_to_list() {
    let mut t = TestApp::new(10000);
    t.add_line("hello world");
    t.render();

    // Enter detail view
    t.press(KeyCode::Enter, NONE);
    assert_eq!(t.app.view_mode, ViewMode::Detail);

    // Press q to go back
    t.press(KeyCode::Char('q'), NONE);
    assert_eq!(t.app.view_mode, ViewMode::List);
}
