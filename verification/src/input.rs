//! A single line of text input: editing, undo, the kill ring, and drawing
//! with horizontal scrolling.
//!
//! The cursor counts characters. Listeners are known by numbers; what a key
//! has them told is returned to the caller, who calls them.

use vstd::prelude::*;

use crate::kill_ring;
use crate::kill_ring::KillRing;
use crate::terminal;
use crate::terminal::CURSOR_MARKER;
use crate::text;
use crate::word_navigation;

verus! {

/// What the last key did, for killing and typing that goes on.
#[derive(Debug, Clone, Copy, PartialEq, Eq, Structural)]
pub enum LastAction {
    Other,
    Kill,
    Yank,
    TypeWord,
}

/// A key, without its modifiers.
#[derive(Debug, Clone, Copy, PartialEq, Eq, Structural)]
pub enum Key {
    Enter,
    Escape,
    Left,
    Right,
    Home,
    End,
    Backspace,
    Delete,
    Char(char),
    Other,
}

/// The modifiers of a key: the control key alone, the alt key alone, or
/// anything else.
#[derive(Debug, Clone, Copy, PartialEq, Eq, Structural)]
pub enum Modifiers {
    Control,
    Alt,
    Other,
}

/// What a listener is told.
pub enum InputEvent {
    Submitted { listener: u64, value: String },
    Escaped { listener: u64 },
    Changed { listener: u64, value: String },
}

/// The model of `InputEvent`.
pub enum InputEventModel {
    Submitted { listener: u64, value: Seq<char> },
    Escaped { listener: u64 },
    Changed { listener: u64, value: Seq<char> },
}

impl View for InputEvent {
    type V = InputEventModel;

    open spec fn view(&self) -> InputEventModel {
        match self {
            InputEvent::Submitted { listener, value } => InputEventModel::Submitted {
                listener: *listener,
                value: value@,
            },
            InputEvent::Escaped { listener } => InputEventModel::Escaped { listener: *listener },
            InputEvent::Changed { listener, value } => InputEventModel::Changed {
                listener: *listener,
                value: value@,
            },
        }
    }
}

/// The model of an event, where there is one.
pub open spec fn event_view(e: Option<InputEvent>) -> Option<InputEventModel> {
    match e {
        Some(event) => Some(event@),
        None => None,
    }
}

/// A value and its cursor, to go back to.
pub struct InputState {
    pub value: String,
    pub cursor: usize,
}

/// The views of a list of states.
pub open spec fn state_views(v: Seq<InputState>) -> Seq<(Seq<char>, int)> {
    Seq::new(v.len(), |i: int| (v[i].value@, v[i].cursor as int))
}

/// A single line of text input.
pub struct Input {
    pub state: InputState,
    pub prompt: String,
    pub placeholder: Option<String>,
    pub kill_ring: KillRing,
    pub undo_stack: Vec<InputState>,
    pub last_action: LastAction,
    pub focused: bool,
    pub submit_listener: Option<u64>,
    pub escape_listener: Option<u64>,
    pub change_listener: Option<u64>,
}

/// The model of `Input`.
#[verifier::ext_equal]
pub struct InputModel {
    pub value: Seq<char>,
    pub cursor: int,
    pub prompt: Seq<char>,
    pub placeholder: Option<Seq<char>>,
    pub ring: Seq<Seq<char>>,
    pub undo: Seq<(Seq<char>, int)>,
    pub last: LastAction,
    pub focused: bool,
    pub submit_listener: Option<u64>,
    pub escape_listener: Option<u64>,
    pub change_listener: Option<u64>,
}

impl View for Input {
    type V = InputModel;

    open spec fn view(&self) -> InputModel {
        InputModel {
            value: self.state.value@,
            cursor: self.state.cursor as int,
            prompt: self.prompt@,
            placeholder: text::opt_text(self.placeholder),
            ring: self.kill_ring@,
            undo: state_views(self.undo_stack@),
            last: self.last_action,
            focused: self.focused,
            submit_listener: self.submit_listener,
            escape_listener: self.escape_listener,
            change_listener: self.change_listener,
        }
    }
}

/// Whether every cursor lies in its value.
pub open spec fn sound(m: InputModel) -> bool {
    &&& 0 <= m.cursor <= m.value.len()
    &&& forall|i: int|
        0 <= i < m.undo.len() ==> 0 <= (#[trigger] m.undo[i]).1 <= m.undo[i].0.len()
}

/// An input after an operation, and whether that changed the value.
#[verifier::ext_equal]
pub struct Outcome {
    pub after: InputModel,
    pub changed: bool,
}

/// An input that was not edited.
pub open spec fn kept(m: InputModel) -> Outcome {
    Outcome { after: m, changed: false }
}

/// An input with `inserted` in place of the characters from `from` to `to`,
/// the cursor behind it, and a way back unless the edit joins the last one.
pub open spec fn spliced(
    m: InputModel,
    from: int,
    to: int,
    inserted: Seq<char>,
    coalesce: bool,
) -> Outcome {
    Outcome {
        after: InputModel {
            value: m.value.take(from) + inserted + m.value.skip(to),
            cursor: from + inserted.len(),
            undo: if coalesce {
                m.undo
            } else {
                m.undo.push((m.value, m.cursor))
            },
            ..m
        },
        changed: true,
    }
}

/// An input after `inserted` came in at the cursor.
pub open spec fn with_insertion(m: InputModel, inserted: Seq<char>, coalesce: bool) -> Outcome {
    if inserted.len() == 0 {
        kept(m)
    } else {
        spliced(m, m.cursor, m.cursor, inserted, coalesce)
    }
}

/// An input after text was typed: word characters join what was typed before
/// them.
pub open spec fn after_typing(m: InputModel, typed: Seq<char>) -> Outcome {
    let whitespace = typed.len() == 0 || text::is_whitespace(typed[0]);
    with_insertion(
        InputModel { last: LastAction::TypeWord, ..m },
        typed,
        !whitespace && m.last == LastAction::TypeWord,
    )
}

/// Pasted text on one line: no line ends, and spaces for tabs.
pub open spec fn flattened(pasted: Seq<char>) -> Seq<char> {
    text::replaced(
        text::replaced(
            text::replaced(text::replaced(pasted, "\r\n"@, ""@), "\r"@, ""@),
            "\n"@,
            ""@,
        ),
        "\t"@,
        "    "@,
    )
}

/// An input after a paste.
pub open spec fn after_paste(m: InputModel, pasted: Seq<char>) -> Outcome {
    with_insertion(InputModel { last: LastAction::Other, ..m }, flattened(pasted), false)
}

/// An input without the character before the cursor.
pub open spec fn after_backspace(m: InputModel) -> Outcome {
    let n = InputModel { last: LastAction::Other, ..m };
    if m.cursor == 0 {
        kept(n)
    } else {
        spliced(n, m.cursor - 1, m.cursor, seq![], false)
    }
}

/// An input without the character behind the cursor.
pub open spec fn after_delete(m: InputModel) -> Outcome {
    let n = InputModel { last: LastAction::Other, ..m };
    if m.cursor >= m.value.len() {
        kept(n)
    } else {
        spliced(n, m.cursor, m.cursor + 1, seq![], false)
    }
}

/// An input without the characters from `from` to `to`, which the kill ring
/// takes: to its latest entry where the last action was a kill too.
pub open spec fn after_kill(m: InputModel, from: int, to: int, prepend: bool) -> Outcome {
    spliced(
        InputModel {
            ring: kill_ring::pushed(
                m.ring,
                m.value.subrange(from, to),
                prepend,
                m.last == LastAction::Kill,
            ),
            last: LastAction::Kill,
            ..m
        },
        from,
        to,
        seq![],
        false,
    )
}

/// An input after all before the cursor was killed.
pub open spec fn after_kill_to_start(m: InputModel) -> Outcome {
    if m.cursor == 0 {
        kept(m)
    } else {
        after_kill(m, 0, m.cursor, true)
    }
}

/// An input after all behind the cursor was killed.
pub open spec fn after_kill_to_end(m: InputModel) -> Outcome {
    if m.cursor >= m.value.len() {
        kept(m)
    } else {
        after_kill(m, m.cursor, m.value.len() as int, false)
    }
}

/// An input after the word before the cursor was killed.
pub open spec fn after_kill_word_back(m: InputModel) -> Outcome {
    if m.cursor == 0 {
        kept(m)
    } else {
        after_kill(m, word_navigation::word_start(m.value, m.cursor), m.cursor, true)
    }
}

/// An input after the word behind the cursor was killed.
pub open spec fn after_kill_word_on(m: InputModel) -> Outcome {
    if m.cursor >= m.value.len() {
        kept(m)
    } else {
        after_kill(m, m.cursor, word_navigation::word_end(m.value, m.cursor), false)
    }
}

/// An input after the latest killed text came in at the cursor.
pub open spec fn after_yank(m: InputModel) -> Outcome {
    if m.ring.len() == 0 {
        kept(m)
    } else {
        spliced(
            InputModel { last: LastAction::Yank, ..m },
            m.cursor,
            m.cursor,
            m.ring.last(),
            false,
        )
    }
}

/// An input after a yank was exchanged for the killed text before it.
pub open spec fn after_yank_pop(m: InputModel) -> Outcome {
    if m.last != LastAction::Yank || m.ring.len() <= 1 {
        kept(m)
    } else {
        let n = InputModel { ring: kill_ring::rotated(m.ring), ..m };
        let previous = m.ring.last().len() as int;
        if m.cursor < previous {
            kept(n)
        } else {
            spliced(n, m.cursor - previous, m.cursor, n.ring.last(), false)
        }
    }
}

/// An input with the cursor elsewhere.
pub open spec fn moved(m: InputModel, cursor: int) -> Outcome {
    kept(InputModel { cursor, last: LastAction::Other, ..m })
}

/// The place one to the left.
pub open spec fn left_of(m: InputModel) -> int {
    if m.cursor > 0 {
        m.cursor - 1
    } else {
        m.cursor
    }
}

/// The place one to the right.
pub open spec fn right_of(m: InputModel) -> int {
    if m.cursor < m.value.len() {
        m.cursor + 1
    } else {
        m.cursor
    }
}

/// An input before its last edit.
pub open spec fn after_undo(m: InputModel) -> Outcome {
    if m.undo.len() == 0 {
        kept(m)
    } else {
        Outcome {
            after: InputModel {
                value: m.undo.last().0,
                cursor: m.undo.last().1,
                undo: m.undo.drop_last(),
                last: LastAction::Other,
                ..m
            },
            changed: true,
        }
    }
}

/// What the listener for changes is told.
pub open spec fn change_event(o: Outcome) -> Option<InputEventModel> {
    match o.after.change_listener {
        Some(listener) => if o.changed {
            Some(InputEventModel::Changed { listener, value: o.after.value })
        } else {
            None
        },
        None => None,
    }
}

/// An input after a key that does not submit or escape.
pub open spec fn after_key(m: InputModel, key: Key, modifiers: Modifiers) -> Outcome {
    match key {
        Key::Left => if modifiers == Modifiers::Control {
            moved(m, word_navigation::word_start(m.value, m.cursor))
        } else {
            moved(m, left_of(m))
        },
        Key::Right => if modifiers == Modifiers::Control {
            moved(m, word_navigation::word_end(m.value, m.cursor))
        } else {
            moved(m, right_of(m))
        },
        Key::Home => moved(m, 0),
        Key::End => moved(m, m.value.len() as int),
        Key::Backspace => if modifiers == Modifiers::Control {
            after_kill_word_back(m)
        } else {
            after_backspace(m)
        },
        Key::Delete => if modifiers == Modifiers::Control {
            after_kill_word_on(m)
        } else {
            after_delete(m)
        },
        Key::Char(c) => match modifiers {
            Modifiers::Control => if c == 'a' {
                moved(m, 0)
            } else if c == 'e' {
                moved(m, m.value.len() as int)
            } else if c == 'b' {
                moved(m, left_of(m))
            } else if c == 'f' {
                moved(m, right_of(m))
            } else if c == 'w' {
                after_kill_word_back(m)
            } else if c == 'k' {
                after_kill_to_end(m)
            } else if c == 'u' {
                after_kill_to_start(m)
            } else if c == 'y' {
                after_yank(m)
            } else if c == '_' || c == '/' {
                after_undo(m)
            } else {
                kept(m)
            },
            Modifiers::Alt => if c == 'b' {
                moved(m, word_navigation::word_start(m.value, m.cursor))
            } else if c == 'f' {
                moved(m, word_navigation::word_end(m.value, m.cursor))
            } else if c == 'd' {
                after_kill_word_on(m)
            } else {
                kept(m)
            },
            Modifiers::Other => after_typing(m, seq![c]),
        },
        _ => kept(m),
    }
}

/// Whether a key submits the value.
pub open spec fn submits(key: Key) -> bool {
    key == Key::Enter || key == Key::Char('\n')
}

/// An input after a key.
pub open spec fn pressed(m: InputModel, key: Key, modifiers: Modifiers) -> InputModel {
    if submits(key) || key == Key::Escape {
        m
    } else {
        after_key(m, key, modifiers).after
    }
}

/// Whom a key has told what.
pub open spec fn key_event(m: InputModel, key: Key, modifiers: Modifiers) -> Option<
    InputEventModel,
> {
    if submits(key) {
        match m.submit_listener {
            Some(listener) => Some(InputEventModel::Submitted { listener, value: m.value }),
            None => None,
        }
    } else if key == Key::Escape {
        match m.escape_listener {
            Some(listener) => Some(InputEventModel::Escaped { listener }),
            None => None,
        }
    } else {
        change_event(after_key(m, key, modifiers))
    }
}

/// The first column that is drawn of a value of `total` columns, in a window
/// of `window`: the caret stays in the middle, but no column is wasted.
pub open spec fn first_column(caret: nat, total: nat, window: nat) -> nat {
    let half = window / 2;
    if caret < half {
        0
    } else if caret > terminal::excess(total, half) {
        terminal::excess(total, window)
    } else {
        terminal::excess(caret, half)
    }
}

/// What is drawn of a value in `available` columns, and where the caret
/// stands in it.
pub open spec fn drawn(m: InputModel, available: nat) -> (Seq<char>, nat) {
    let total = terminal::width_of(m.value);
    let caret = terminal::width_of(m.value.take(m.cursor));
    let window = if m.cursor == m.value.len() {
        terminal::excess(available, 1)
    } else {
        available
    };
    if total < available {
        (m.value, m.cursor as nat)
    } else if window == 0 {
        (seq![], 0)
    } else {
        let start = first_column(caret, total, window);
        let visible = terminal::column_slice(m.value, start, window, true);
        let before = terminal::column_slice(
            m.value,
            start,
            if terminal::excess(caret, start) < window {
                terminal::excess(caret, start)
            } else {
                window
            },
            true,
        );
        (
            visible,
            if before.len() < visible.len() {
                before.len()
            } else {
                visible.len()
            },
        )
    }
}

/// A line with the caret at its place: marked and in reverse video where the
/// input has the focus.
pub open spec fn with_caret(prompt: Seq<char>, shown: Seq<char>, caret: nat, focused: bool) -> Seq<
    char,
> {
    let at = if caret < shown.len() {
        seq![shown[caret as int]]
    } else {
        " "@
    };
    let behind = if caret < shown.len() {
        shown.skip(caret as int + 1)
    } else {
        seq![]
    };
    prompt + shown.take(caret as int) + (if focused {
        CURSOR_MARKER@ + "\x1b[7m"@ + at + "\x1b[27m"@
    } else {
        at
    }) + behind + "\x1b[0m"@
}

/// The line that is drawn of an input.
pub open spec fn line_of(m: InputModel, width: nat) -> Seq<char> {
    let available = terminal::excess(width, terminal::width_of(m.prompt));
    if available == 0 {
        m.prompt
    } else if m.value.len() == 0 && !m.focused && m.placeholder is Some {
        m.prompt + ("\x1b[90m"@ + m.placeholder->0 + "\x1b[0m"@)
    } else {
        let (shown, caret) = drawn(m, available);
        with_caret(m.prompt, shown, caret, m.focused)
    }
}

/// An empty input.
pub open spec fn fresh() -> InputModel {
    InputModel {
        value: seq![],
        cursor: 0,
        prompt: "> "@,
        placeholder: None,
        ring: seq![],
        undo: seq![],
        last: LastAction::Other,
        focused: false,
        submit_listener: None,
        escape_listener: None,
        change_listener: None,
    }
}

fn smaller(a: usize, b: usize) -> (r: usize)
    ensures
        r == if a < b {
            a
        } else {
            b
        },
{
    if a < b {
        a
    } else {
        b
    }
}

impl Default for Input {
    fn default() -> (input: Input)
        ensures
            input@ == fresh(),
            input.wf(),
    {
        Input::new()
    }
}

impl Input {
    /// Whether every cursor lies in its value.
    pub open spec fn wf(&self) -> bool {
        sound(self@)
    }

    /// An empty input.
    pub fn new() -> (input: Input)
        ensures
            input@ == fresh(),
            input.wf(),
    {
        let input = Input {
            state: InputState { value: String::new(), cursor: 0 },
            prompt: "> ".to_owned(),
            placeholder: None,
            kill_ring: KillRing::new(),
            undo_stack: Vec::new(),
            last_action: LastAction::Other,
            focused: false,
            submit_listener: None,
            escape_listener: None,
            change_listener: None,
        };
        assert(input@.value =~= seq![]);
        assert(input@.undo =~= seq![]);
        input
    }

    /// An empty input with a prompt of its own.
    pub fn with_prompt(prompt: &str) -> (input: Input)
        ensures
            input@ == (InputModel { prompt: prompt@, ..fresh() }),
            input.wf(),
    {
        let mut input = Input::new();
        input.prompt = prompt.to_owned();
        input
    }

    /// An empty input with a placeholder.
    pub fn with_placeholder(placeholder: &str) -> (input: Input)
        ensures
            input@ == (InputModel { placeholder: Some(placeholder@), ..fresh() }),
            input.wf(),
    {
        let mut input = Input::new();
        input.placeholder = Some(placeholder.to_owned());
        input
    }

    /// The value.
    pub fn get_value(&self) -> (value: String)
        ensures
            value@ == self@.value,
    {
        self.state.value.clone()
    }

    /// Sets the value, with the cursor at its end.
    pub fn set_value(&mut self, value: &str)
        requires
            old(self).wf(),
        ensures
            final(self)@ == (InputModel {
                value: value@,
                cursor: value@.len() as int,
                ..old(self)@
            }),
            final(self).wf(),
    {
        let cursor = value.unicode_len();
        self.state = InputState { value: value.to_owned(), cursor };
    }

    /// Clears the value.
    pub fn clear(&mut self)
        requires
            old(self).wf(),
        ensures
            final(self)@ == (InputModel { value: seq![], cursor: 0, ..old(self)@ }),
            final(self).wf(),
    {
        self.state = InputState { value: String::new(), cursor: 0 };
        assert(self@.value =~= seq![]);
    }

    /// Sets the listener for a submitted value.
    pub fn on_submit(&mut self, listener: u64)
        ensures
            final(self)@ == (InputModel { submit_listener: Some(listener), ..old(self)@ }),
    {
        self.submit_listener = Some(listener);
    }

    /// Sets the listener for the escape key.
    pub fn on_escape(&mut self, listener: u64)
        ensures
            final(self)@ == (InputModel { escape_listener: Some(listener), ..old(self)@ }),
    {
        self.escape_listener = Some(listener);
    }

    /// Sets the listener for changes of the value.
    pub fn on_change(&mut self, listener: u64)
        ensures
            final(self)@ == (InputModel { change_listener: Some(listener), ..old(self)@ }),
    {
        self.change_listener = Some(listener);
    }

    /// Gives or takes the focus.
    pub fn set_focused(&mut self, focused: bool)
        ensures
            final(self)@ == (InputModel { focused, ..old(self)@ }),
    {
        self.focused = focused;
    }

    /// Whether the input has the focus.
    pub fn is_focused(&self) -> (r: bool)
        ensures
            r == self@.focused,
    {
        self.focused
    }

    fn notify_change(&self) -> (e: Option<InputEvent>)
        ensures
            event_view(e) == change_event((Outcome { after: self@, changed: true })),
    {
        match self.change_listener {
            Some(listener) => Some(
                InputEvent::Changed { listener, value: self.state.value.clone() },
            ),
            None => None,
        }
    }

    fn splice(&mut self, from: usize, to: usize, inserted: &str, coalesce: bool) -> (e: Option<
        InputEvent,
    >)
        requires
            old(self).wf(),
            from <= to <= old(self)@.value.len(),
        ensures
            final(self)@ == spliced(
                old(self)@,
                from as int,
                to as int,
                inserted@,
                coalesce,
            ).after,
            event_view(e) == change_event(
                spliced(old(self)@, from as int, to as int, inserted@, coalesce),
            ),
            final(self).wf(),
    {
        let value = text::cat3(
            text::take(self.state.value.as_str(), from),
            inserted,
            text::skip(self.state.value.as_str(), to),
        );
        let total = value.as_str().unicode_len();
        let length = inserted.unicode_len();
        assert(total == from + length + (self@.value.len() - to));
        let ghost before = self@;
        let mut snapshot = InputState { value, cursor: from + length };
        std::mem::swap(&mut self.state, &mut snapshot);
        if !coalesce {
            let ghost undo = self@.undo;
            self.undo_stack.push(snapshot);
            assert(self@.undo =~= undo.push((before.value, before.cursor)));
        }
        self.notify_change()
    }

    /// Inserts pasted text at the cursor, on one line.
    pub fn handle_paste(&mut self, pasted: &str) -> (e: Option<InputEvent>)
        requires
            old(self).wf(),
        ensures
            final(self)@ == after_paste(old(self)@, pasted@).after,
            event_view(e) == change_event(after_paste(old(self)@, pasted@)),
            final(self).wf(),
    {
        self.last_action = LastAction::Other;
        proof {
            reveal_strlit("\r\n");
            reveal_strlit("\r");
            reveal_strlit("\n");
            reveal_strlit("\t");
        }
        let a = text::replace(pasted, "\r\n", "");
        let b = text::replace(a.as_str(), "\r", "");
        let c = text::replace(b.as_str(), "\n", "");
        let clean = text::replace(c.as_str(), "\t", "    ");
        if clean.as_str().unicode_len() == 0 {
            return None;
        }
        let cursor = self.state.cursor;
        self.splice(cursor, cursor, clean.as_str(), false)
    }

    /// Inserts typed text at the cursor.
    pub fn insert_character(&mut self, typed: &str) -> (e: Option<InputEvent>)
        requires
            old(self).wf(),
        ensures
            final(self)@ == after_typing(old(self)@, typed@).after,
            event_view(e) == change_event(after_typing(old(self)@, typed@)),
            final(self).wf(),
    {
        let whitespace = typed.unicode_len() == 0 || text::is_whitespace(typed.get_char(0));
        let coalesce = !whitespace && self.last_action == LastAction::TypeWord;
        self.last_action = LastAction::TypeWord;
        if typed.unicode_len() == 0 {
            return None;
        }
        let cursor = self.state.cursor;
        self.splice(cursor, cursor, typed, coalesce)
    }

    /// Deletes the character before the cursor.
    pub fn handle_backspace(&mut self) -> (e: Option<InputEvent>)
        requires
            old(self).wf(),
        ensures
            final(self)@ == after_backspace(old(self)@).after,
            event_view(e) == change_event(after_backspace(old(self)@)),
            final(self).wf(),
    {
        self.last_action = LastAction::Other;
        if self.state.cursor == 0 {
            return None;
        }
        let cursor = self.state.cursor;
        proof {
            reveal_strlit("");
            assert(""@ =~= seq![]);
        }
        self.splice(cursor - 1, cursor, "", false)
    }

    /// Deletes the character behind the cursor.
    pub fn handle_forward_delete(&mut self) -> (e: Option<InputEvent>)
        requires
            old(self).wf(),
        ensures
            final(self)@ == after_delete(old(self)@).after,
            event_view(e) == change_event(after_delete(old(self)@)),
            final(self).wf(),
    {
        self.last_action = LastAction::Other;
        if self.state.cursor >= self.state.value.as_str().unicode_len() {
            return None;
        }
        let cursor = self.state.cursor;
        proof {
            reveal_strlit("");
            assert(""@ =~= seq![]);
        }
        self.splice(cursor, cursor + 1, "", false)
    }

    fn kill(&mut self, from: usize, to: usize, prepend: bool) -> (e: Option<InputEvent>)
        requires
            old(self).wf(),
            from <= to <= old(self)@.value.len(),
        ensures
            final(self)@ == after_kill(old(self)@, from as int, to as int, prepend).after,
            event_view(e) == change_event(
                after_kill(old(self)@, from as int, to as int, prepend),
            ),
            final(self).wf(),
    {
        let accumulate = self.last_action == LastAction::Kill;
        self.kill_ring.push(
            text::slice(self.state.value.as_str(), from, to),
            prepend,
            accumulate,
        );
        self.last_action = LastAction::Kill;
        proof {
            reveal_strlit("");
            assert(""@ =~= seq![]);
        }
        self.splice(from, to, "", false)
    }

    /// Kills all before the cursor.
    pub fn delete_to_line_start(&mut self) -> (e: Option<InputEvent>)
        requires
            old(self).wf(),
        ensures
            final(self)@ == after_kill_to_start(old(self)@).after,
            event_view(e) == change_event(after_kill_to_start(old(self)@)),
            final(self).wf(),
    {
        if self.state.cursor == 0 {
            return None;
        }
        let cursor = self.state.cursor;
        self.kill(0, cursor, true)
    }

    /// Kills all behind the cursor.
    pub fn delete_to_line_end(&mut self) -> (e: Option<InputEvent>)
        requires
            old(self).wf(),
        ensures
            final(self)@ == after_kill_to_end(old(self)@).after,
            event_view(e) == change_event(after_kill_to_end(old(self)@)),
            final(self).wf(),
    {
        let length = self.state.value.as_str().unicode_len();
        if self.state.cursor >= length {
            return None;
        }
        let cursor = self.state.cursor;
        self.kill(cursor, length, false)
    }

    /// Kills the word before the cursor.
    pub fn delete_word_backwards(&mut self) -> (e: Option<InputEvent>)
        requires
            old(self).wf(),
        ensures
            final(self)@ == after_kill_word_back(old(self)@).after,
            event_view(e) == change_event(after_kill_word_back(old(self)@)),
            final(self).wf(),
    {
        if self.state.cursor == 0 {
            return None;
        }
        let cursor = self.state.cursor;
        let start = word_navigation::find_word_backward(self.state.value.as_str(), cursor);
        self.kill(start, cursor, true)
    }

    /// Kills the word behind the cursor.
    pub fn delete_word_forward(&mut self) -> (e: Option<InputEvent>)
        requires
            old(self).wf(),
        ensures
            final(self)@ == after_kill_word_on(old(self)@).after,
            event_view(e) == change_event(after_kill_word_on(old(self)@)),
            final(self).wf(),
    {
        if self.state.cursor >= self.state.value.as_str().unicode_len() {
            return None;
        }
        let cursor = self.state.cursor;
        let end = word_navigation::find_word_forward(self.state.value.as_str(), cursor);
        self.kill(cursor, end, false)
    }

    /// Inserts the latest killed text at the cursor.
    pub fn yank(&mut self) -> (e: Option<InputEvent>)
        requires
            old(self).wf(),
        ensures
            final(self)@ == after_yank(old(self)@).after,
            event_view(e) == change_event(after_yank(old(self)@)),
            final(self).wf(),
    {
        let latest = match self.kill_ring.peek() {
            Some(killed) => killed.to_owned(),
            None => {
                return None;
            },
        };
        self.last_action = LastAction::Yank;
        let cursor = self.state.cursor;
        self.splice(cursor, cursor, latest.as_str(), false)
    }

    /// Exchanges what was yanked for the killed text before it.
    pub fn yank_pop(&mut self) -> (e: Option<InputEvent>)
        requires
            old(self).wf(),
        ensures
            final(self)@ == after_yank_pop(old(self)@).after,
            event_view(e) == change_event(after_yank_pop(old(self)@)),
            final(self).wf(),
    {
        if self.last_action != LastAction::Yank || self.kill_ring.len() <= 1 {
            return None;
        }
        let previous: usize = match self.kill_ring.peek() {
            Some(killed) => killed.unicode_len(),
            None => 0,
        };
        self.kill_ring.rotate();
        let replacement = match self.kill_ring.peek() {
            Some(killed) => killed.to_owned(),
            None => String::new(),
        };
        let cursor = self.state.cursor;
        if cursor < previous {
            return None;
        }
        self.splice(cursor - previous, cursor, replacement.as_str(), false)
    }

    fn move_to(&mut self, cursor: usize)
        requires
            old(self).wf(),
            cursor <= old(self)@.value.len(),
        ensures
            final(self)@ == moved(old(self)@, cursor as int).after,
            final(self).wf(),
    {
        self.last_action = LastAction::Other;
        self.state.cursor = cursor;
    }

    /// Moves the cursor to the left.
    pub fn move_cursor_left(&mut self)
        requires
            old(self).wf(),
        ensures
            final(self)@ == moved(old(self)@, left_of(old(self)@)).after,
            final(self).wf(),
    {
        let cursor = self.state.cursor;
        self.move_to(
            if cursor > 0 {
                cursor - 1
            } else {
                cursor
            },
        );
    }

    /// Moves the cursor to the right.
    pub fn move_cursor_right(&mut self)
        requires
            old(self).wf(),
        ensures
            final(self)@ == moved(old(self)@, right_of(old(self)@)).after,
            final(self).wf(),
    {
        let cursor = self.state.cursor;
        let length = self.state.value.as_str().unicode_len();
        self.move_to(
            if cursor < length {
                cursor + 1
            } else {
                cursor
            },
        );
    }

    /// Moves the cursor to the start.
    pub fn move_to_line_start(&mut self)
        requires
            old(self).wf(),
        ensures
            final(self)@ == moved(old(self)@, 0).after,
            final(self).wf(),
    {
        self.move_to(0);
    }

    /// Moves the cursor to the end.
    pub fn move_to_line_end(&mut self)
        requires
            old(self).wf(),
        ensures
            final(self)@ == moved(old(self)@, old(self)@.value.len() as int).after,
            final(self).wf(),
    {
        let length = self.state.value.as_str().unicode_len();
        self.move_to(length);
    }

    /// Moves the cursor to the start of the word before it.
    pub fn move_word_left(&mut self)
        requires
            old(self).wf(),
        ensures
            final(self)@ == moved(
                old(self)@,
                word_navigation::word_start(old(self)@.value, old(self)@.cursor),
            ).after,
            final(self).wf(),
    {
        let place = word_navigation::find_word_backward(
            self.state.value.as_str(),
            self.state.cursor,
        );
        self.move_to(place);
    }

    /// Moves the cursor to the end of the word behind it.
    pub fn move_word_right(&mut self)
        requires
            old(self).wf(),
        ensures
            final(self)@ == moved(
                old(self)@,
                word_navigation::word_end(old(self)@.value, old(self)@.cursor),
            ).after,
            final(self).wf(),
    {
        let place = word_navigation::find_word_forward(
            self.state.value.as_str(),
            self.state.cursor,
        );
        self.move_to(place);
    }

    /// Goes back to before the last edit.
    pub fn undo(&mut self) -> (e: Option<InputEvent>)
        requires
            old(self).wf(),
        ensures
            final(self)@ == after_undo(old(self)@).after,
            event_view(e) == change_event(after_undo(old(self)@)),
            final(self).wf(),
    {
        let ghost undo = self@.undo;
        match self.undo_stack.pop() {
            Some(snapshot) => {
                assert(undo.last() == (snapshot.value@, snapshot.cursor as int));
                self.state = snapshot;
                self.last_action = LastAction::Other;
                assert(self@.undo =~= undo.drop_last());
                self.notify_change()
            },
            None => None,
        }
    }

    /// Handles a key. What comes back is for the listener that it names.
    pub fn handle_key(&mut self, key: Key, modifiers: Modifiers) -> (e: Option<InputEvent>)
        requires
            old(self).wf(),
        ensures
            final(self)@ == pressed(old(self)@, key, modifiers),
            event_view(e) == key_event(old(self)@, key, modifiers),
            final(self).wf(),
    {
        if key == Key::Enter || key == Key::Char('\n') {
            return match self.submit_listener {
                Some(listener) => Some(
                    InputEvent::Submitted { listener, value: self.state.value.clone() },
                ),
                None => None,
            };
        }
        if key == Key::Escape {
            return match self.escape_listener {
                Some(listener) => Some(InputEvent::Escaped { listener }),
                None => None,
            };
        }
        match key {
            Key::Left => {
                if modifiers == Modifiers::Control {
                    self.move_word_left();
                } else {
                    self.move_cursor_left();
                }
                None
            },
            Key::Right => {
                if modifiers == Modifiers::Control {
                    self.move_word_right();
                } else {
                    self.move_cursor_right();
                }
                None
            },
            Key::Home => {
                self.move_to_line_start();
                None
            },
            Key::End => {
                self.move_to_line_end();
                None
            },
            Key::Backspace => if modifiers == Modifiers::Control {
                self.delete_word_backwards()
            } else {
                self.handle_backspace()
            },
            Key::Delete => if modifiers == Modifiers::Control {
                self.delete_word_forward()
            } else {
                self.handle_forward_delete()
            },
            Key::Char(c) => match modifiers {
                Modifiers::Control => self.handle_control(c),
                Modifiers::Alt => self.handle_alt(c),
                Modifiers::Other => {
                    let mut typed = String::new();
                    typed.push(c);
                    assert(typed@ =~= seq![c]);
                    self.insert_character(typed.as_str())
                },
            },
            _ => None,
        }
    }

    fn handle_control(&mut self, c: char) -> (e: Option<InputEvent>)
        requires
            old(self).wf(),
        ensures
            final(self)@ == after_key(old(self)@, Key::Char(c), Modifiers::Control).after,
            event_view(e) == change_event(
                after_key(old(self)@, Key::Char(c), Modifiers::Control),
            ),
            final(self).wf(),
    {
        if c == 'a' {
            self.move_to_line_start();
            None
        } else if c == 'e' {
            self.move_to_line_end();
            None
        } else if c == 'b' {
            self.move_cursor_left();
            None
        } else if c == 'f' {
            self.move_cursor_right();
            None
        } else if c == 'w' {
            self.delete_word_backwards()
        } else if c == 'k' {
            self.delete_to_line_end()
        } else if c == 'u' {
            self.delete_to_line_start()
        } else if c == 'y' {
            self.yank()
        } else if c == '_' || c == '/' {
            self.undo()
        } else {
            None
        }
    }

    fn handle_alt(&mut self, c: char) -> (e: Option<InputEvent>)
        requires
            old(self).wf(),
        ensures
            final(self)@ == after_key(old(self)@, Key::Char(c), Modifiers::Alt).after,
            event_view(e) == change_event(after_key(old(self)@, Key::Char(c), Modifiers::Alt)),
            final(self).wf(),
    {
        if c == 'b' {
            self.move_word_left();
            None
        } else if c == 'f' {
            self.move_word_right();
            None
        } else if c == 'd' {
            self.delete_word_forward()
        } else {
            None
        }
    }

    fn draw(&self, available: usize) -> (r: (String, usize))
        requires
            self.wf(),
            available > 0,
        ensures
            (r.0@, r.1 as nat) == drawn(self@, available as nat),
            r.1 <= r.0@.len(),
    {
        let value = self.state.value.as_str();
        let cursor = self.state.cursor;
        let total: usize = terminal::visible_width(value);
        let caret: usize = terminal::visible_width(text::take(value, cursor));
        if total < available {
            return (value.to_owned(), cursor);
        }
        let window: usize = if cursor == value.unicode_len() {
            available - 1
        } else {
            available
        };
        if window == 0 {
            let none = String::new();
            assert(none@ =~= seq![]);
            return (none, 0);
        }
        let half: usize = window / 2;
        let start: usize = if caret < half {
            0
        } else if caret > total.saturating_sub(half) {
            total.saturating_sub(window)
        } else {
            caret.saturating_sub(half)
        };
        assert(start == first_column(caret as nat, total as nat, window as nat));
        let visible = terminal::slice_by_column(value, start, window, true);
        let before = terminal::slice_by_column(
            value,
            start,
            smaller(caret.saturating_sub(start), window),
            true,
        );
        let place = smaller(before.as_str().unicode_len(), visible.as_str().unicode_len());
        (visible, place)
    }

    /// The lines that are drawn of the input: always one. The caret is
    /// counted in characters, the window in columns.
    pub fn render(&self, width: usize) -> (lines: Vec<String>)
        requires
            self.wf(),
        ensures
            text::texts(lines@) == seq![line_of(self@, width as nat)],
    {
        let mut lines: Vec<String> = Vec::new();
        let available = width.saturating_sub(terminal::visible_width(self.prompt.as_str()));
        let line = if available == 0 {
            self.prompt.clone()
        } else if self.state.value.as_str().unicode_len() == 0 && !self.focused
            && self.placeholder.is_some() {
            match &self.placeholder {
                Some(placeholder) => {
                    let dimmed = text::cat3("\x1b[90m", placeholder.as_str(), "\x1b[0m");
                    text::cat(self.prompt.as_str(), dimmed.as_str())
                },
                None => self.prompt.clone(),
            }
        } else {
            let (shown, caret) = self.draw(available);
            caret_line(self.prompt.as_str(), shown.as_str(), caret, self.focused)
        };
        let ghost only = line@;
        assert(only == line_of(self@, width as nat));
        lines.push(line);
        assert(text::texts(lines@) =~= seq![only]);
        lines
    }
}

/// A line with the caret at its place.
pub fn caret_line(prompt: &str, shown: &str, caret: usize, focused: bool) -> (out: String)
    requires
        caret <= shown@.len(),
    ensures
        out@ == with_caret(prompt@, shown@, caret as nat, focused),
{
    let length = shown.unicode_len();
    let at = if caret < length {
        text::slice(shown, caret, caret + 1)
    } else {
        " "
    };
    let behind = if caret < length {
        text::skip(shown, caret + 1)
    } else {
        text::skip(shown, length)
    };
    proof {
        if caret < length {
            assert(at@ =~= seq![shown@[caret as int]]);
        } else {
            assert(behind@ =~= seq![]);
        }
    }
    let drawn_caret = if focused {
        text::cat4(CURSOR_MARKER, "\x1b[7m", at, "\x1b[27m")
    } else {
        at.to_owned()
    };
    text::cat5(prompt, text::take(shown, caret), drawn_caret.as_str(), behind, "\x1b[0m")
}

/// No key moves the cursor out of the value, or loses a way back to one that
/// lies in its value.
pub proof fn lemma_keys_stay_sound(m: InputModel, key: Key, modifiers: Modifiers)
    requires
        sound(m),
    ensures
        sound(pressed(m, key, modifiers)),
{
    word_navigation::lemma_words_move(m.value, m.cursor);
}

/// Any edit can be undone: value and cursor are what they were.
pub proof fn lemma_undo_restores(
    m: InputModel,
    from: int,
    to: int,
    inserted: Seq<char>,
)
    requires
        sound(m),
        0 <= from <= to <= m.value.len(),
    ensures
        after_undo(spliced(m, from, to, inserted, false).after).after.value == m.value,
        after_undo(spliced(m, from, to, inserted, false).after).after.cursor == m.cursor,
        after_undo(spliced(m, from, to, inserted, false).after).after.undo == m.undo,
{
    let after = spliced(m, from, to, inserted, false).after;
    assert(after.undo.drop_last() =~= m.undo);
}

/// Characters of a word typed one after another are undone together.
pub proof fn lemma_typed_word_is_one_unit(m: InputModel, a: char, b: char)
    requires
        sound(m),
        !text::is_whitespace(b),
        m.last != LastAction::TypeWord,
    ensures
        after_undo(
            after_typing(after_typing(m, seq![a]).after, seq![b]).after,
        ).after.value == m.value,
        after_undo(
            after_typing(after_typing(m, seq![a]).after, seq![b]).after,
        ).after.cursor == m.cursor,
{
    let once = after_typing(m, seq![a]).after;
    let twice = after_typing(once, seq![b]).after;
    assert(once.undo.last() == (m.value, m.cursor));
    assert(twice.undo == once.undo);
}

/// What was killed up to the end of the line is there again after a yank.
pub proof fn lemma_yank_brings_back(m: InputModel)
    requires
        sound(m),
        m.last != LastAction::Kill,
        m.cursor < m.value.len(),
    ensures
        after_yank(after_kill_to_end(m).after).after.value == m.value,
{
    let killed = after_kill_to_end(m).after;
    let cut = m.value.subrange(m.cursor, m.value.len() as int);
    assert(killed.ring.last() == cut);
    assert(killed.value =~= m.value.take(m.cursor));
    assert(after_yank(killed).after.value =~= m.value);
}

/// Kills in a row make one entry of the ring, in the order of the text.
pub proof fn lemma_kills_accumulate(m: InputModel)
    requires
        sound(m),
        0 < m.cursor < m.value.len(),
        m.last != LastAction::Kill,
    ensures
        after_kill_to_start(after_kill_to_end(m).after).after.ring.last() == m.value,
        after_kill_to_start(after_kill_to_end(m).after).after.ring.len() == m.ring.len() + 1,
        after_kill_to_start(after_kill_to_end(m).after).after.value.len() == 0,
{
    let once = after_kill_to_end(m).after;
    let tail = m.value.subrange(m.cursor, m.value.len() as int);
    assert(once.value =~= m.value.take(m.cursor));
    assert(once.ring.last() == tail);
    let head = once.value.subrange(0, once.cursor);
    assert(head =~= m.value.take(m.cursor));
    assert(head + tail =~= m.value);
}

/// To move the cursor changes neither the value nor the ways back.
pub proof fn lemma_moves_keep_value(m: InputModel, cursor: int)
    ensures
        moved(m, cursor).after.value == m.value,
        moved(m, cursor).after.undo == m.undo,
        change_event(moved(m, cursor)) is None,
{
}

/// The caret follows the text: where all of the value is drawn, the marker
/// stands behind the prompt and the characters before the cursor.
pub proof fn lemma_marker_sits_at_the_caret(m: InputModel, width: nat)
    requires
        sound(m),
        m.focused,
        terminal::width_of(m.value) < terminal::excess(width, terminal::width_of(m.prompt)),
    ensures
        text::begins(
            line_of(m, width),
            m.prompt + m.value.take(m.cursor) + CURSOR_MARKER@,
        ),
{
    let line = line_of(m, width);
    let start = m.prompt + m.value.take(m.cursor) + CURSOR_MARKER@;
    assert(line.take(start.len() as int) =~= start);
}

} // verus!
