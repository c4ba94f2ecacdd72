//! Key presses as the viewer reads them, and a one-line text editor that
//! handles them.
use vstd::prelude::*;
use tui_input::backend::crossterm::EventHandler;
use ratatui::crossterm::event as term;

verus! {

/// The key that was pressed.
#[derive(Debug, Clone, Copy, PartialEq, Eq, Structural)]
pub enum KeyCode {
    Char(char),
    Enter,
    Esc,
    Backspace,
    Delete,
    Tab,
    Up,
    Down,
    Left,
    Right,
    Home,
    End,
    PageUp,
    PageDown,
    Other,
}

/// No modifier.
pub const NONE: u8 = 0u8;

/// The shift modifier bit.
pub const SHIFT: u8 = 1u8;

/// The control modifier bit.
pub const CONTROL: u8 = 2u8;

/// The alt modifier bit.
pub const ALT: u8 = 4u8;

/// The meta modifier bit.
pub const META: u8 = 32u8;

/// Whether a key went down, repeats, or went up.
#[derive(Debug, Clone, Copy, PartialEq, Eq, Structural)]
pub enum KeyKind {
    Press,
    Repeat,
    Release,
}

/// A key event: the key, the set of modifier bits held with it, and its kind.
#[derive(Debug, Clone, Copy, PartialEq, Eq, Structural)]
pub struct KeyEvent {
    pub code: KeyCode,
    pub modifiers: u8,
    pub kind: KeyKind,
}

/// A terminal event as the viewer sees it.
#[derive(Debug, Clone, Copy, PartialEq, Eq, Structural)]
pub enum InputEvent {
    Key(KeyEvent),
    Resize(u16, u16),
    Other,
}

/// Whether the control bit is among `m`.
pub open spec fn has_control(m: u8) -> bool {
    m & CONTROL != 0
}

impl KeyEvent {
    /// A key press with the given modifiers.
    pub fn new(code: KeyCode, modifiers: u8) -> (k: KeyEvent)
        ensures
            k == (KeyEvent { code, modifiers, kind: KeyKind::Press }),
    {
        KeyEvent { code, modifiers, kind: KeyKind::Press }
    }

    /// A key event of the given kind.
    pub fn new_with_kind(code: KeyCode, modifiers: u8, kind: KeyKind) -> (k: KeyEvent)
        ensures
            k == (KeyEvent { code, modifiers, kind }),
    {
        KeyEvent { code, modifiers, kind }
    }

    /// Whether control was held.
    pub fn ctrl(&self) -> (r: bool)
        ensures
            r == has_control(self.modifiers),
    {
        self.modifiers & CONTROL != 0
    }
}

/// `tui_input::Input`, the outside editor, carried opaquely.
#[verifier::external_type_specification]
#[verifier::external_body]
pub struct ExInput(tui_input::Input);

/// The text the editor holds, as `Input::value` gives it back.
pub uninterp spec fn editor_text(e: tui_input::Input) -> Seq<char>;

/// The editor's cursor, in characters, as `Input::cursor` gives it back.
pub uninterp spec fn editor_cursor(e: tui_input::Input) -> nat;

/// What `Input::visual_cursor` gives for an editor holding `text` with the
/// cursor at `cursor`: the display width of the graphemes before the cursor.
pub uninterp spec fn visual_column(text: Seq<char>, cursor: nat) -> nat;

/// What handing `key` to an editor holding `text` with the cursor at
/// `cursor` gives back: whether anything changed, the new text and the new
/// cursor. For every key but the yank key this depends on nothing else.
pub uninterp spec fn editor_step(text: Seq<char>, cursor: nat, key: KeyEvent) -> (bool, Seq<char>, nat);

/// The key that pastes the editor's yank buffer (control-y) and every key
/// that might be read as it.
pub open spec fn may_yank(key: KeyEvent) -> bool {
    key.code == KeyCode::Char('y') && has_control(key.modifiers)
}

/// `text` with `c` put in at position `at`.
pub open spec fn inserted(text: Seq<char>, at: nat, c: char) -> Seq<char> {
    text.take(at as int) + seq![c] + text.skip(at as int)
}

/// `tui_input::Input::new(value)`: the editor holds `value` and, as its
/// source shows, puts the cursor after the value's last character.
#[verifier::external_body]
fn editor_new(value: &str) -> (r: tui_input::Input)
    ensures
        editor_text(r) == value@,
        editor_cursor(r) == value@.len(),
{
    tui_input::Input::new(value.to_string())
}

/// `Clone::clone` on the editor (derived): same text and cursor.
#[verifier::external_body]
fn editor_clone(e: &tui_input::Input) -> (r: tui_input::Input)
    ensures
        editor_text(r) == editor_text(*e),
        editor_cursor(r) == editor_cursor(*e),
{
    e.clone()
}

/// `Input::visual_cursor`: the display column of the editor's cursor. Its
/// source reads only the text and the cursor; with the cursor at the start
/// it is 0.
#[verifier::external_body]
fn editor_visual_cursor(e: &tui_input::Input) -> (r: usize)
    ensures
        r == visual_column(editor_text(*e), editor_cursor(*e)),
        editor_cursor(*e) == 0 ==> r == 0,
{
    e.visual_cursor()
}

/// Feeds a key press to the editor (`EventHandler::handle_event` on the
/// matching `crossterm` key event) and reads back whether it reported a change,
/// `Input::value` and `Input::cursor`. As the editor's source shows: the
/// cursor never passes the end of the text; a character typed with no
/// modifier or with shift goes in at the cursor, which moves past it; Home and
/// End move the cursor to the start or the end; Tab changes nothing. What the
/// yank key gives depends on the editor's yank buffer and is left unsaid;
/// every other key gives `editor_step` of the text, cursor and key.
#[verifier::external_body]
fn editor_handle(e: &mut tui_input::Input, key: KeyEvent) -> (r: (bool, String, usize))
    requires
        editor_reads(key),
    ensures
        r.1@ == editor_text(*final(e)),
        r.2 == editor_cursor(*final(e)),
        editor_cursor(*old(e)) <= editor_text(*old(e)).len() ==> r.2 <= r.1@.len(),
        !may_yank(key) ==> (r.0, r.1@, r.2 as nat) == editor_step(
            editor_text(*old(e)),
            editor_cursor(*old(e)),
            key,
        ),
        key.code is Char && (key.modifiers == NONE || key.modifiers == SHIFT) && editor_cursor(*old(e))
            <= editor_text(*old(e)).len() ==> r.0 && r.1@ == inserted(
            editor_text(*old(e)),
            editor_cursor(*old(e)),
            key.code->Char_0,
        ) && r.2 == editor_cursor(*old(e)) + 1,
        key.code == KeyCode::Home && key.modifiers == NONE ==> r.0 == (editor_cursor(*old(e)) != 0)
            && r.1@ == editor_text(*old(e)) && r.2 == 0,
        key.code == KeyCode::End && key.modifiers == NONE ==> r.0 == (editor_cursor(*old(e))
            != editor_text(*old(e)).len()) && r.1@ == editor_text(*old(e)) && r.2
            == editor_text(*old(e)).len(),
        key.code == KeyCode::Tab && key.modifiers == NONE ==> !r.0 && r.1@ == editor_text(*old(e))
            && r.2 == editor_cursor(*old(e)),
{
    let code = match key.code {
        KeyCode::Char(c) => term::KeyCode::Char(c),
        KeyCode::Backspace => term::KeyCode::Backspace,
        KeyCode::Delete => term::KeyCode::Delete,
        KeyCode::Tab => term::KeyCode::Tab,
        KeyCode::Left => term::KeyCode::Left,
        KeyCode::Right => term::KeyCode::Right,
        KeyCode::Home => term::KeyCode::Home,
        _ => term::KeyCode::End,
    };
    let mods = term::KeyModifiers::from_bits_truncate(key.modifiers);
    let changed = e.handle_event(&term::Event::Key(term::KeyEvent::new(code, mods))).is_some();
    (changed, e.value().to_string(), e.cursor())
}

/// Whether the line editor reads this key at all: it reads presses and
/// repeats of characters, Backspace, Delete, Tab, the arrows left and right,
/// Home and End, and ignores every other key.
pub open spec fn editor_reads(key: KeyEvent) -> bool {
    &&& key.kind != KeyKind::Release
    &&& match key.code {
        KeyCode::Char(_) | KeyCode::Backspace | KeyCode::Delete | KeyCode::Tab | KeyCode::Left
        | KeyCode::Right | KeyCode::Home | KeyCode::End => true,
        _ => false,
    }
}

/// What handing `key` to the editor `t0` does, leaving `t` and reporting
/// `changed`. Keys the editor does not read change nothing. A character typed
/// with no modifier or with shift goes in at the cursor, which moves past it;
/// Home and End move the cursor to the start or the end; Tab changes nothing.
/// Every other key the editor reads, but the yank key, has the effect
/// `editor_step` gives for the old text and cursor.
pub open spec fn key_edit(t0: TextInput, t: TextInput, key: KeyEvent, changed: bool) -> bool {
    &&& !editor_reads(key) ==> !changed && t@ == t0@ && t.cursor_spec() == t0.cursor_spec()
    &&& editor_reads(key) && !may_yank(key) ==> (changed, t@, t.cursor_spec()) == editor_step(
        t0@,
        t0.cursor_spec(),
        key,
    )
    &&& editor_reads(key) && key.code is Char && (key.modifiers == NONE || key.modifiers == SHIFT)
        ==> changed && t@ == inserted(t0@, t0.cursor_spec(), key.code->Char_0) && t.cursor_spec()
        == t0.cursor_spec() + 1
    &&& editor_reads(key) && key.code == KeyCode::Home && key.modifiers == NONE ==> changed == (
    t0.cursor_spec() != 0) && t@ == t0@ && t.cursor_spec() == 0
    &&& editor_reads(key) && key.code == KeyCode::End && key.modifiers == NONE ==> changed == (
    t0.cursor_spec() != t0@.len()) && t@ == t0@ && t.cursor_spec() == t0@.len()
    &&& editor_reads(key) && key.code == KeyCode::Tab && key.modifiers == NONE ==> !changed && t@
        == t0@ && t.cursor_spec() == t0.cursor_spec()
}

/// A one-line text editor: the outside editor and the text and cursor it
/// showed after its last change.
pub struct TextInput {
    editor: tui_input::Input,
    value: String,
    cursor: usize,
}

impl View for TextInput {
    type V = Seq<char>;

    closed spec fn view(&self) -> Seq<char> {
        self.value@
    }
}

impl TextInput {
    /// The text and cursor kept here are those the editor holds, and the
    /// cursor is within the text.
    #[verifier::type_invariant]
    spec fn mirrors_editor(self) -> bool {
        &&& self.value@ == editor_text(self.editor)
        &&& self.cursor == editor_cursor(self.editor)
        &&& self.cursor <= self.value@.len()
    }

    /// An editor holding `value`, with the cursor after its last character.
    pub fn new(value: String) -> (r: TextInput)
        ensures
            r@ == value@,
            r.cursor_spec() == value@.len(),
    {
        let editor = editor_new(value.as_str());
        let n = crate::text::chars_of(value.as_str()).len();
        TextInput { editor, value, cursor: n }
    }

    /// The cursor position, in characters.
    pub closed spec fn cursor_spec(&self) -> nat {
        self.cursor as nat
    }

    /// The text being edited.
    pub fn value(&self) -> (r: &str)
        ensures
            r@ == self@,
    {
        self.value.as_str()
    }

    /// The cursor position, in characters; it never passes the end of the text.
    pub fn cursor(&self) -> (r: usize)
        ensures
            r == self.cursor_spec(),
            r <= self@.len(),
    {
        proof {
            use_type_invariant(self);
        }
        self.cursor
    }

    /// The display column of the cursor, as the editor counts it: the display
    /// width of what stands before the cursor.
    pub fn visual_cursor(&self) -> (r: usize)
        ensures
            r == visual_column(self@, self.cursor_spec()),
            self.cursor_spec() == 0 ==> r == 0,
    {
        proof {
            use_type_invariant(self);
        }
        editor_visual_cursor(&self.editor)
    }

    /// A copy with the same text and cursor.
    pub fn duplicate(&self) -> (r: TextInput)
        ensures
            r@ == self@,
            r.cursor_spec() == self.cursor_spec(),
    {
        proof {
            use_type_invariant(self);
        }
        TextInput { editor: editor_clone(&self.editor), value: self.value.clone(), cursor: self.cursor }
    }

    /// Hands a key press to the editor; whether the text or cursor changed.
    /// Keys the editor does not read change nothing. A character typed with
    /// no modifier or with shift goes in at the cursor, which moves past it;
    /// Home and End move the cursor to the start or the end; Tab changes
    /// nothing. Every other key the editor reads, but the yank key, has the
    /// effect `editor_step` gives for the old text and cursor.
    pub fn handle_key(&mut self, key: KeyEvent) -> (changed: bool)
        ensures
            key_edit(*old(self), *final(self), key, changed),
    {
        proof {
            use_type_invariant(&*self);
        }
        let reads = key.kind != KeyKind::Release && match key.code {
            KeyCode::Char(_) | KeyCode::Backspace | KeyCode::Delete | KeyCode::Tab | KeyCode::Left
            | KeyCode::Right | KeyCode::Home | KeyCode::End => true,
            _ => false,
        };
        if !reads {
            return false;
        }
        let mut current = TextInput::new(String::new());
        std::mem::swap(&mut current, self);
        proof {
            use_type_invariant(&current);
        }
        let TextInput { mut editor, value: _, cursor: _ } = current;
        let (changed, value, cursor) = editor_handle(&mut editor, key);
        *self = TextInput { editor, value, cursor };
        changed
    }
}

} // verus!
