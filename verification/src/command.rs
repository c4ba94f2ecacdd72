//! The command prompt (`:record <path>`, `:stop`) and the dispatch of terminal
//! events to the help screen, the prompts and the list.
use vstd::prelude::*;
use crate::keys::{InputEvent, KeyCode, KeyEvent, KeyKind, TextInput, has_control, key_edit};
use crate::text::{char_is_whitespace, scan_while, trim_seq};
use crate::viewer::{AppAction, App, TIMESTAMP_WIDTH, app_wf, lemma_wf_nav, filter_handled, help_key_effect, list_key_effect};

verus! {

/// The end of the first word of `cmd`: its first whitespace character, or
/// its length.
pub open spec fn head_end(cmd: Seq<char>) -> int {
    scan_while(cmd, 0, |c: char| !char_is_whitespace(c))
}

/// The error shown for `record` without a path.
pub open spec fn missing_path_text() -> Seq<char> {
    "Missing file path"@
}

/// The error shown for a command that is not known.
pub open spec fn unknown_command_text(cmd: Seq<char>) -> Seq<char> {
    "Unknown command: "@ + cmd
}

/// The error shown when a recording could not be started.
pub open spec fn record_failed_text(err: Seq<char>) -> Seq<char> {
    "Recording failed: "@ + err
}

/// What running the command `cmd` does: `record <path>` asks for the
/// recording of `path` (trimmed) to start, `stop` and `stoprecord` stop it,
/// the empty command does nothing, anything else is an error.
pub open spec fn command_effect(a: &App, b: &App, cmd: Seq<char>, action: AppAction) -> bool {
    let e = head_end(cmd);
    let is_record = e < cmd.len() && cmd.subrange(0, e) == "record"@;
    let path = trim_seq(cmd.subrange(e + 1, cmd.len() as int));
    &&& b.lines == a.lines && b.filter == a.filter && b.cache == a.cache
    &&& b.selected == a.selected && b.scroll_offset == a.scroll_offset
    &&& b.should_quit == a.should_quit && b.command_input == a.command_input
    &&& b.expanded == a.expanded && b.context_mode == a.context_mode
    &&& if is_record {
        if path.len() == 0 {
            (b.command_error matches Some(m) && m@ == missing_path_text()) && b.recording == a.recording && action == AppAction::Nothing
        } else {
            b.command_error == a.command_error && b.recording is None && (action matches AppAction::StartRecording(p) && p@ == path)
        }
    } else if cmd == "stop"@ || cmd == "stoprecord"@ {
        b.command_error == a.command_error && b.recording is None && action == AppAction::StopRecording
    } else if cmd.len() == 0 {
        b.command_error == a.command_error && b.recording == a.recording && action == AppAction::Nothing
    } else {
        (b.command_error matches Some(m) && m@ == unknown_command_text(cmd)) && b.recording == a.recording && action == AppAction::Nothing
    }
}

/// Everything a command key leaves alone.
pub open spec fn command_frame(a: &App, b: &App) -> bool {
    &&& b.lines == a.lines && b.filter == a.filter && b.cache == a.cache
    &&& b.selected == a.selected && b.scroll_offset == a.scroll_offset
    &&& b.expanded == a.expanded && b.context_mode == a.context_mode
    &&& b.show_help == a.show_help
}

/// What a key press at the command prompt does: Enter runs the trimmed
/// command and closes the prompt, Esc and `^C` close it and clear the error,
/// `^X` quits, and any other key goes to the editor, clearing the error when
/// it changes the text (a key the editor does not read changes nothing).
pub open spec fn command_key_effect(a: &App, b: &App, key: KeyEvent, action: AppAction) -> bool {
    let ctrl = has_control(key.modifiers);
    &&& command_frame(a, b)
    &&& (key.code == KeyCode::Enter ==> ({
        let mid = App { command_input: None, ..*a };
        b.command_input is None && command_effect(&mid, b, trim_seq(a.command_input->0@), action)
    }))
    &&& (key.code != KeyCode::Enter ==> action == AppAction::Nothing && b.recording == a.recording)
    &&& (key.code == KeyCode::Esc || (ctrl && key.code == KeyCode::Char('c')) ==> b.command_input is None
        && b.command_error is None && b.should_quit == a.should_quit)
    &&& (key.code != KeyCode::Enter && key.code != KeyCode::Esc && ctrl && key.code == KeyCode::Char('x')
        ==> b.should_quit && b.command_input == a.command_input && b.command_error == a.command_error)
    &&& (key.code != KeyCode::Enter && key.code != KeyCode::Esc && !(ctrl && (key.code == KeyCode::Char('c')
        || key.code == KeyCode::Char('x'))) ==> b.should_quit == a.should_quit && b.command_input is Some
        && exists|changed: bool| #[trigger] key_edit(a.command_input->0, b.command_input->0, key, changed)
        && b.command_error == (if changed { None } else { a.command_error }))
}

/// The end of the first word of `v`.
fn first_word_end(v: &[char]) -> (r: usize)
    ensures
        r == head_end(v@),
        r <= v@.len(),
{
    let mut i: usize = 0;
    proof {
        crate::text::lemma_scan_while_bounds(v@, 0, |c: char| !char_is_whitespace(c));
    }
    while i < v.len() && !crate::text::is_whitespace(v[i])
        invariant
            i <= v@.len(),
            scan_while(v@, i as int, |c: char| !char_is_whitespace(c)) == head_end(v@),
        decreases v@.len() - i,
    {
        i = i + 1;
    }
    i
}

/// Whether `v` holds exactly the characters of `s`.
fn chars_equal(v: &[char], s: &str) -> (r: bool)
    ensures
        r == (v@ == s@),
{
    let w = crate::text::chars_of(s);
    if v.len() != w.len() {
        return false;
    }
    let mut i: usize = 0;
    while i < v.len()
        invariant
            i <= v@.len() == w@.len(),
            w@ == s@,
            forall|j: int| 0 <= j < i ==> v@[j] == w@[j],
        decreases v@.len() - i,
    {
        if v[i] != w[i] {
            return false;
        }
        i = i + 1;
    }
    assert(v@ =~= w@);
    true
}

impl App {
    /// Runs the command `cmd` typed at the prompt. A recording asked for is
    /// started by the caller, which then reports back with
    /// `recording_started` or `recording_failed`.
    pub fn execute_command(&mut self, cmd: &str) -> (action: AppAction)
        requires
            app_wf(old(self)),
        ensures
            app_wf(final(self)),
            command_effect(old(self), final(self), cmd@, action),
            final(self).show_help == old(self).show_help && final(self).help_scroll == old(self).help_scroll,
            final(self).expand_all == old(self).expand_all && final(self).auto_scroll == old(self).auto_scroll,
    {
        let ghost s0 = *self;
        let v = crate::text::chars_of(cmd);
        let e = first_word_end(v.as_slice());
        let head = crate::text::string_of_range(v.as_slice(), 0, e);
        if e < v.len() && chars_equal(crate::text::chars_of(head.as_str()).as_slice(), "record") {
            let rest = crate::text::string_of_range(v.as_slice(), e + 1, v.len());
            let path = crate::text::trim_chars(crate::text::chars_of(rest.as_str()).as_slice());
            if path.len() == 0 {
                proof {
                    reveal_strlit("Missing file path");
                }
                self.command_error = Some(String::from_str("Missing file path"));
                proof {
                    lemma_wf_nav(self, &s0);
                }
                return AppAction::Nothing;
            }
            self.recording = None;
            proof {
                lemma_wf_nav(self, &s0);
            }
            return AppAction::StartRecording(crate::text::string_of(path.as_slice()));
        }
        if chars_equal(v.as_slice(), "stop") || chars_equal(v.as_slice(), "stoprecord") {
            self.recording = None;
            proof {
                lemma_wf_nav(self, &s0);
            }
            return AppAction::StopRecording;
        }
        if v.len() == 0 {
            return AppAction::Nothing;
        }
        let msg = crate::text::concat_text("Unknown command: ", v.as_slice());
        proof {
            reveal_strlit("Unknown command: ");
        }
        self.command_error = Some(msg);
        proof {
            lemma_wf_nav(self, &s0);
        }
        AppAction::Nothing
    }

    /// The recording of `path` has started.
    pub fn recording_started(&mut self, path: String)
        ensures
            final(self).recording == Some(path),
            final(self).command_error == old(self).command_error,
            final(self).lines == old(self).lines && final(self).cache == old(self).cache,
    {
        self.recording = Some(path);
    }

    /// The recording could not be started, for the reason `err`.
    pub fn recording_failed(&mut self, err: &str)
        ensures
            final(self).recording is None,
            final(self).command_error matches Some(m) && m@ == record_failed_text(err@),
            final(self).lines == old(self).lines && final(self).cache == old(self).cache,
    {
        let e = crate::text::chars_of(err);
        let msg = crate::text::concat_text("Recording failed: ", e.as_slice());
        proof {
            reveal_strlit("Recording failed: ");
        }
        self.recording = None;
        self.command_error = Some(msg);
    }

    /// Handles a key press while the command prompt is open: Enter runs the
    /// trimmed command and closes the prompt, Esc and `^C` close it and
    /// clear the error, `^X` quits, and any other key goes to the editor,
    /// clearing the error when it changes the text.
    pub fn handle_command_input(&mut self, key: KeyEvent) -> (action: AppAction)
        requires
            app_wf(old(self)),
            old(self).command_input is Some,
        ensures
            app_wf(final(self)),
            command_key_effect(old(self), final(self), key, action),
    {
        let ctrl = key.ctrl();
        let ghost s0 = *self;
        let action = match key.code {
            KeyCode::Enter => {
                let input = self.command_input.take();
                proof {
                    lemma_wf_nav(self, &s0);
                }
                match input {
                    Some(inp) => {
                        let v = crate::text::chars_of(inp.value());
                        let t = crate::text::trim_chars(v.as_slice());
                        let cmd = crate::text::string_of(t.as_slice());
                        self.execute_command(cmd.as_str())
                    },
                    None => AppAction::Nothing,
                }
            },
            KeyCode::Esc => {
                self.command_input = None;
                self.command_error = None;
                AppAction::Nothing
            },
            KeyCode::Char('c') if ctrl => {
                self.command_input = None;
                self.command_error = None;
                AppAction::Nothing
            },
            KeyCode::Char('x') if ctrl => {
                self.should_quit = true;
                AppAction::Nothing
            },
            _ => {
                let input = self.command_input.take();
                match input {
                    Some(mut inp) => {
                        let ghost t0 = inp;
                        let changed = inp.handle_key(key);
                        self.command_input = Some(inp);
                        if changed {
                            self.command_error = None;
                        }
                        proof {
                            assert(key_edit(t0, self.command_input->0, key, changed));
                        }
                    },
                    None => {},
                }
                AppAction::Nothing
            },
        };
        proof {
            if key.code != KeyCode::Enter {
                lemma_wf_nav(self, &s0);
            }
        }
        action
    }

    /// Handles a terminal event in a screen of `width` × `height` cells;
    /// whether the screen must be drawn again. A resize redraws; only key
    /// presses are handled, by the help screen when it is shown, else by the
    /// open prompt, else by the list.
    pub fn handle_event(&mut self, ev: InputEvent, width: u16, height: u16) -> (r: (bool, AppAction))
        requires
            app_wf(old(self)),
        ensures
            app_wf(final(self)),
            match ev {
                InputEvent::Resize(_, _) => r == (true, AppAction::Nothing) && *final(self) == *old(self),
                InputEvent::Other => r == (false, AppAction::Nothing) && *final(self) == *old(self),
                InputEvent::Key(key) => if key.kind != KeyKind::Press {
                    r == (false, AppAction::Nothing) && *final(self) == *old(self)
                } else if old(self).show_help {
                    r == (true, AppAction::Nothing) && help_key_effect(old(self), final(self), key)
                } else if old(self).command_input is Some {
                    r.0 && command_key_effect(old(self), final(self), key, r.1)
                } else if old(self).filter.filter_input is Some {
                    r == (true, AppAction::Nothing) && exists|f: (bool, bool, bool)|
                        #[trigger] filter_handled(old(self).filter, key, final(self).filter, f)
                        && final(self).should_quit == (old(self).should_quit || f.2)
                } else {
                    r.0 && list_key_effect(old(self), final(self), key,
                        (if height as int - 4 > 0 { height as int - 4 } else { 0 }) as nat,
                        (if width as int - TIMESTAMP_WIDTH > 0 { width as int - TIMESTAMP_WIDTH } else { 0 }) as nat, r.1)
                },
            },
    {
        match ev {
            InputEvent::Key(key) => {
                if key.kind != KeyKind::Press {
                    return (false, AppAction::Nothing);
                }
                if self.show_help {
                    self.handle_help_key(key);
                    return (true, AppAction::Nothing);
                }
                let vh = self.visible_height(height);
                let cw = (width as usize).saturating_sub(TIMESTAMP_WIDTH);
                if self.command_input.is_some() {
                    let a = self.handle_command_input(key);
                    return (true, a);
                }
                if self.filter.filter_input.is_some() {
                    self.handle_filter_input(key);
                    return (true, AppAction::Nothing);
                }
                let a = self.list_key(key, vh, cw);
                (true, a)
            },
            InputEvent::Resize(_, _) => (true, AppAction::Nothing),
            InputEvent::Other => (false, AppAction::Nothing),
        }
    }
}

} // verus!
