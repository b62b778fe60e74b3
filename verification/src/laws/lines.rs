//! What keys do to a line of input.

use vstd::prelude::*;

use crate::input;
use crate::input::{InputEventModel, InputModel, Key, LastAction, Modifiers};
use crate::kill_ring;
use crate::text;
use crate::word_navigation;
use crate::word_navigation::WordKind;

verus! {

/// Letters, digits and underscores make words; so does everything outside of
/// ASCII that is no white space. The other visible ASCII characters are
/// punctuation.
pub proof fn lemma_kinds_of_characters(c: char)
    ensures
        'a' <= c && c <= 'z' ==> word_navigation::word_kind(c) == WordKind::Word,
        'A' <= c && c <= 'Z' ==> word_navigation::word_kind(c) == WordKind::Word,
        '0' <= c && c <= '9' ==> word_navigation::word_kind(c) == WordKind::Word,
        c == '_' ==> word_navigation::word_kind(c) == WordKind::Word,
        c > '~' && !text::is_whitespace(c) ==> word_navigation::word_kind(c) == WordKind::Word,
        text::is_whitespace(c) <==> word_navigation::word_kind(c) == WordKind::Space,
        c == ' ' || c == '\t' || c == '\n' ==> word_navigation::word_kind(c) == WordKind::Space,
        '!' <= c && c <= '/' ==> word_navigation::word_kind(c) == WordKind::Punctuation,
        ':' <= c && c <= '@' ==> word_navigation::word_kind(c) == WordKind::Punctuation,
        '[' <= c && c <= '`' && c != '_' ==> word_navigation::word_kind(c)
            == WordKind::Punctuation,
        '{' <= c && c <= '~' ==> word_navigation::word_kind(c) == WordKind::Punctuation,
{
}

/// Whether the word before `i` starts at `w`: white space may stand between
/// its end and `i`, its characters are of one kind, and no character of that
/// kind stands before it.
pub open spec fn starts_word(s: Seq<char>, i: int, w: int) -> bool {
    exists|j: int|
        {
            &&& 0 <= w <= j <= i
            &&& forall|k: int| j <= k < i ==> text::is_whitespace(#[trigger] s[k])
            &&& #[trigger] word_between(s, w, j)
            &&& j == 0 ==> w == 0
            &&& j > 0 ==> w < j
            &&& 0 < w ==> word_navigation::word_kind(s[w - 1]) != word_navigation::word_kind(s[w])
        }
}

/// Whether the word after `i` ends at `w`: white space may stand between `i`
/// and its start, its characters are of one kind, and no character of that
/// kind stands behind it.
pub open spec fn ends_word(s: Seq<char>, i: int, w: int) -> bool {
    exists|j: int|
        {
            &&& i <= j <= w <= s.len()
            &&& forall|k: int| i <= k < j ==> text::is_whitespace(#[trigger] s[k])
            &&& #[trigger] word_between(s, j, w)
            &&& j == s.len() ==> w == s.len()
            &&& j < s.len() ==> j < w
            &&& w < s.len() ==> word_navigation::word_kind(s[w]) != word_navigation::word_kind(
                s[w - 1],
            )
        }
}

/// Whether the characters from `a` up to `b` are of one kind and not white
/// space.
pub open spec fn word_between(s: Seq<char>, a: int, b: int) -> bool {
    forall|k: int|
        a <= k < b ==> !text::is_whitespace(s[k]) && word_navigation::word_kind(#[trigger] s[k])
            == word_navigation::word_kind(s[a])
}

proof fn lemma_back_stops(s: Seq<char>, kind: WordKind, i: int)
    requires
        0 <= i <= s.len(),
    ensures
        ({
            let j = word_navigation::back_over(s, kind, i);
            &&& 0 <= j <= i
            &&& forall|k: int| j <= k < i ==> word_navigation::word_kind(#[trigger] s[k]) == kind
            &&& j > 0 ==> word_navigation::word_kind(s[j - 1]) != kind
        }),
    decreases i,
{
    if i > 0 && word_navigation::word_kind(s[i - 1]) == kind {
        lemma_back_stops(s, kind, i - 1);
    }
}

proof fn lemma_on_stops(s: Seq<char>, kind: WordKind, i: int)
    requires
        0 <= i <= s.len(),
    ensures
        ({
            let j = word_navigation::on_over(s, kind, i);
            &&& i <= j <= s.len()
            &&& forall|k: int| i <= k < j ==> word_navigation::word_kind(#[trigger] s[k]) == kind
            &&& j < s.len() ==> word_navigation::word_kind(s[j]) != kind
        }),
    decreases s.len() - i,
{
    if i < s.len() && word_navigation::word_kind(s[i]) == kind {
        lemma_on_stops(s, kind, i + 1);
    }
}

/// The start of the word before a place, and the end of the word after it,
/// are those of whole words.
pub proof fn lemma_words_are_whole(s: Seq<char>, i: int)
    requires
        0 <= i <= s.len(),
    ensures
        starts_word(s, i, word_navigation::word_start(s, i)),
        ends_word(s, i, word_navigation::word_end(s, i)),
{
    lemma_back_stops(s, WordKind::Space, i);
    let j = word_navigation::back_over(s, WordKind::Space, i);
    let w = word_navigation::word_start(s, i);
    if j > 0 {
        lemma_back_stops(s, word_navigation::word_kind(s[j - 1]), j);
        assert(w < j) by {
            word_navigation::lemma_back_over(s, word_navigation::word_kind(s[j - 1]), j);
        }
        assert(word_navigation::word_kind(s[w]) == word_navigation::word_kind(s[j - 1]));
    }
    assert forall|k: int| j <= k < i implies text::is_whitespace(#[trigger] s[k]) by {
        assert(word_navigation::word_kind(s[k]) == WordKind::Space);
    }
    assert(word_between(s, w, j));
    lemma_on_stops(s, WordKind::Space, i);
    let a = word_navigation::on_over(s, WordKind::Space, i);
    let e = word_navigation::word_end(s, i);
    if a < s.len() {
        lemma_on_stops(s, word_navigation::word_kind(s[a]), a);
        word_navigation::lemma_on_over(s, word_navigation::word_kind(s[a]), a);
        assert(word_navigation::word_kind(s[e - 1]) == word_navigation::word_kind(s[a]));
    }
    assert forall|k: int| i <= k < a implies text::is_whitespace(#[trigger] s[k]) by {
        assert(word_navigation::word_kind(s[k]) == WordKind::Space);
    }
    assert(word_between(s, a, e));
}

/// Whether `after` is `m` without the characters from `from` up to `to`: what
/// stands before and behind them is there, the cursor is between the two,
/// and there is one more way back.
pub open spec fn cut_out(m: InputModel, after: InputModel, from: int, to: int) -> bool {
    &&& 0 <= from <= to <= m.value.len()
    &&& after.value.len() == m.value.len() - (to - from)
    &&& forall|i: int| 0 <= i < from ==> #[trigger] after.value[i] == m.value[i]
    &&& forall|i: int| from <= i < after.value.len() ==> #[trigger] after.value[i] == m.value[i + (to - from)]
    &&& after.cursor == from
    &&& after.undo == m.undo.push((m.value, m.cursor))
}

/// Whether the kill ring has taken the characters from `from` up to `to`. A
/// kill right behind another one goes to the same entry, before what that
/// one holds or behind it; any other kill makes an entry of its own.
pub open spec fn killed(m: InputModel, after: InputModel, from: int, to: int, before: bool) -> bool {
    let cut = m.value.subrange(from, to);
    &&& after.last == LastAction::Kill
    &&& m.last == LastAction::Kill && m.ring.len() > 0 ==> {
        &&& after.ring.len() == m.ring.len()
        &&& after.ring.drop_last() == m.ring.drop_last()
        &&& before ==> after.ring.last() == cut + m.ring.last()
        &&& !before ==> after.ring.last() == m.ring.last() + cut
    }
    &&& m.last != LastAction::Kill || m.ring.len() == 0 ==> after.ring == m.ring.push(cut)
}

proof fn lemma_cut(m: InputModel, from: int, to: int, before: bool)
    requires
        input::sound(m),
        0 <= from < to <= m.value.len(),
    ensures
        cut_out(m, input::after_kill(m, from, to, before).after, from, to),
        killed(m, input::after_kill(m, from, to, before).after, from, to, before),
{
    let after = input::after_kill(m, from, to, before).after;
    let left = m.value.take(from);
    let right = m.value.skip(to);
    assert(after.value =~= left + right);
    assert(after.ring.len() == m.ring.len() ==> after.ring.drop_last() =~= m.ring.drop_last());
}

/// Ctrl+W does what Ctrl+Backspace does: it takes the word before the cursor
/// into the kill ring and keeps every character before that word and behind
/// the cursor. At the start of the line it does nothing.
pub proof fn lemma_word_before_is_killed(m: InputModel)
    requires
        input::sound(m),
    ensures
        input::pressed(m, Key::Char('w'), Modifiers::Control) == input::pressed(
            m,
            Key::Backspace,
            Modifiers::Control,
        ),
        m.cursor == 0 ==> input::pressed(m, Key::Char('w'), Modifiers::Control) == m,
        m.cursor > 0 ==> {
            let after = input::pressed(m, Key::Char('w'), Modifiers::Control);
            &&& after.cursor < m.cursor
            &&& starts_word(m.value, m.cursor, after.cursor)
            &&& cut_out(m, after, after.cursor, m.cursor)
            &&& killed(m, after, after.cursor, m.cursor, true)
        },
{
    word_navigation::lemma_words_move(m.value, m.cursor);
    lemma_words_are_whole(m.value, m.cursor);
    if m.cursor > 0 {
        lemma_cut(m, word_navigation::word_start(m.value, m.cursor), m.cursor, true);
    }
}

/// Alt+D does what Ctrl+Delete does: it takes the word behind the cursor into
/// the kill ring and keeps every character before the cursor and behind that
/// word. At the end of the line it does nothing.
pub proof fn lemma_word_behind_is_killed(m: InputModel)
    requires
        input::sound(m),
    ensures
        input::pressed(m, Key::Char('d'), Modifiers::Alt) == input::pressed(
            m,
            Key::Delete,
            Modifiers::Control,
        ),
        m.cursor == m.value.len() ==> input::pressed(m, Key::Char('d'), Modifiers::Alt) == m,
        m.cursor < m.value.len() ==> {
            let after = input::pressed(m, Key::Char('d'), Modifiers::Alt);
            exists|end: int|
                {
                    &&& m.cursor < end
                    &&& #[trigger] ends_word(m.value, m.cursor, end)
                    &&& cut_out(m, after, m.cursor, end)
                    &&& killed(m, after, m.cursor, end, false)
                }
        },
{
    word_navigation::lemma_words_move(m.value, m.cursor);
    lemma_words_are_whole(m.value, m.cursor);
    if m.cursor < m.value.len() {
        let end = word_navigation::word_end(m.value, m.cursor);
        lemma_cut(m, m.cursor, end, false);
        assert(ends_word(m.value, m.cursor, end));
    }
}

/// Ctrl+U takes all before the cursor into the kill ring, Ctrl+K all behind
/// it.
pub proof fn lemma_line_is_killed(m: InputModel)
    requires
        input::sound(m),
    ensures
        m.cursor == 0 ==> input::pressed(m, Key::Char('u'), Modifiers::Control) == m,
        m.cursor > 0 ==> {
            let after = input::pressed(m, Key::Char('u'), Modifiers::Control);
            cut_out(m, after, 0, m.cursor) && killed(m, after, 0, m.cursor, true)
        },
        m.cursor == m.value.len() ==> input::pressed(m, Key::Char('k'), Modifiers::Control) == m,
        m.cursor < m.value.len() ==> {
            let after = input::pressed(m, Key::Char('k'), Modifiers::Control);
            cut_out(m, after, m.cursor, m.value.len() as int) && killed(
                m,
                after,
                m.cursor,
                m.value.len() as int,
                false,
            )
        },
{
    if m.cursor > 0 {
        lemma_cut(m, 0, m.cursor, true);
    }
    if m.cursor < m.value.len() {
        lemma_cut(m, m.cursor, m.value.len() as int, false);
    }
}

/// Backspace takes away the one character before the cursor, Delete the one
/// behind it; the kill ring stays as it is.
pub proof fn lemma_one_character_is_deleted(m: InputModel, modifiers: Modifiers)
    requires
        input::sound(m),
        modifiers != Modifiers::Control,
    ensures
        m.cursor > 0 ==> cut_out(
            m,
            input::pressed(m, Key::Backspace, modifiers),
            m.cursor - 1,
            m.cursor,
        ),
        m.cursor == 0 ==> input::pressed(m, Key::Backspace, modifiers).value == m.value
            && input::pressed(m, Key::Backspace, modifiers).cursor == 0,
        m.cursor < m.value.len() ==> cut_out(
            m,
            input::pressed(m, Key::Delete, modifiers),
            m.cursor,
            m.cursor + 1,
        ),
        m.cursor == m.value.len() ==> input::pressed(m, Key::Delete, modifiers).value == m.value
            && input::pressed(m, Key::Delete, modifiers).cursor == m.cursor,
        input::pressed(m, Key::Backspace, modifiers).ring == m.ring,
        input::pressed(m, Key::Delete, modifiers).ring == m.ring,
        input::pressed(m, Key::Backspace, modifiers).last == LastAction::Other,
        input::pressed(m, Key::Delete, modifiers).last == LastAction::Other,
{
}

/// Whether `after` is `m` with `added` at the cursor and the cursor behind it.
pub open spec fn put_in(m: InputModel, after: InputModel, added: Seq<char>) -> bool {
    &&& after.value.len() == m.value.len() + added.len()
    &&& forall|i: int| 0 <= i < m.cursor ==> #[trigger] after.value[i] == m.value[i]
    &&& forall|i: int|
        m.cursor <= i < m.cursor + added.len() ==> #[trigger] after.value[i] == added[i - m.cursor]
    &&& forall|i: int|
        m.cursor + added.len() <= i < after.value.len() ==> #[trigger] after.value[i] == m.value[i
            - added.len()]
    &&& after.cursor == m.cursor + added.len()
}

/// A character that is typed stands at the cursor, which moves behind it. It
/// joins the word before it in one step of undo where that was typed too;
/// white space begins a step of its own.
pub proof fn lemma_character_is_typed(m: InputModel, c: char)
    requires
        input::sound(m),
        c != '\n',
    ensures
        ({
            let after = input::pressed(m, Key::Char(c), Modifiers::Other);
            &&& put_in(m, after, seq![c])
            &&& after.ring == m.ring
            &&& after.last == LastAction::TypeWord
            &&& m.last == LastAction::TypeWord && !text::is_whitespace(c) ==> after.undo == m.undo
            &&& m.last != LastAction::TypeWord || text::is_whitespace(c) ==> after.undo
                == m.undo.push((m.value, m.cursor))
        }),
{
}

/// A paste stands at the cursor without line ends and with spaces for tabs,
/// as one step of undo.
pub proof fn lemma_paste_is_put_in(m: InputModel, pasted: Seq<char>)
    requires
        input::sound(m),
    ensures
        ({
            let o = input::after_paste(m, pasted);
            let added = input::flattened(pasted);
            &&& put_in(m, o.after, added)
            &&& o.after.ring == m.ring
            &&& o.changed <==> added.len() > 0
            &&& added.len() > 0 ==> o.after.undo == m.undo.push((m.value, m.cursor))
            &&& added.len() == 0 ==> o.after.undo == m.undo
        }),
{
}

/// Ctrl+Y puts the latest killed text in at the cursor and leaves the ring as
/// it is; with nothing killed it does nothing.
pub proof fn lemma_yank_puts_in(m: InputModel)
    requires
        input::sound(m),
    ensures
        m.ring.len() == 0 ==> input::pressed(m, Key::Char('y'), Modifiers::Control) == m,
        m.ring.len() > 0 ==> {
            let after = input::pressed(m, Key::Char('y'), Modifiers::Control);
            &&& put_in(m, after, m.ring.last())
            &&& after.ring == m.ring
            &&& after.last == LastAction::Yank
            &&& after.undo == m.undo.push((m.value, m.cursor))
        },
{
}

/// Right behind a yank, what was yanked gives way to the killed text before
/// it, which becomes the latest; otherwise nothing happens.
pub proof fn lemma_yank_gives_way(m: InputModel)
    requires
        input::sound(m),
        m.ring.len() > 1,
        m.last != LastAction::Yank,
    ensures
        ({
            let yanked = input::after_yank(m).after;
            let after = input::after_yank_pop(yanked).after;
            &&& put_in(m, after, m.ring[m.ring.len() - 2])
            &&& after.ring.last() == m.ring[m.ring.len() - 2]
            &&& after.ring.len() == m.ring.len()
            &&& after.ring[0] == m.ring.last()
            &&& forall|i: int| 0 <= i < m.ring.len() - 1 ==> #[trigger] after.ring[i + 1] == m.ring[i]
            &&& after.last == LastAction::Yank
        }),
        input::after_yank_pop(m).after == m,
        !input::after_yank_pop(m).changed,
{
    let yanked = input::after_yank(m).after;
    let after = input::after_yank_pop(yanked).after;
    let previous = m.ring.last().len() as int;
    assert(yanked.value =~= m.value.take(m.cursor) + m.ring.last() + m.value.skip(m.cursor));
    assert(yanked.value.take(yanked.cursor - previous) =~= m.value.take(m.cursor));
    assert(yanked.value.skip(yanked.cursor) =~= m.value.skip(m.cursor));
    assert(after.ring == kill_ring::rotated(m.ring));
}

/// Whether `after` is `m` with the cursor at `at`.
pub open spec fn moved_to(m: InputModel, after: InputModel, at: int) -> bool {
    &&& after.cursor == at
    &&& after.value == m.value
    &&& after.ring == m.ring
    &&& after.undo == m.undo
    &&& after.last == LastAction::Other
}

/// The keys that move the cursor: by one character and no further than the
/// ends, to the ends, or by a word.
pub proof fn lemma_cursor_moves(m: InputModel, modifiers: Modifiers)
    requires
        input::sound(m),
    ensures
        modifiers != Modifiers::Control ==> moved_to(
            m,
            input::pressed(m, Key::Left, modifiers),
            if m.cursor > 0 {
                m.cursor - 1
            } else {
                0
            },
        ),
        modifiers != Modifiers::Control ==> moved_to(
            m,
            input::pressed(m, Key::Right, modifiers),
            if m.cursor < m.value.len() {
                m.cursor + 1
            } else {
                m.cursor
            },
        ),
        moved_to(m, input::pressed(m, Key::Home, modifiers), 0),
        moved_to(m, input::pressed(m, Key::End, modifiers), m.value.len() as int),
        input::pressed(m, Key::Char('a'), Modifiers::Control) == input::pressed(
            m,
            Key::Home,
            modifiers,
        ),
        input::pressed(m, Key::Char('e'), Modifiers::Control) == input::pressed(
            m,
            Key::End,
            modifiers,
        ),
        input::pressed(m, Key::Char('b'), Modifiers::Control) == input::pressed(
            m,
            Key::Left,
            Modifiers::Other,
        ),
        input::pressed(m, Key::Char('f'), Modifiers::Control) == input::pressed(
            m,
            Key::Right,
            Modifiers::Other,
        ),
        input::pressed(m, Key::Char('b'), Modifiers::Alt) == input::pressed(
            m,
            Key::Left,
            Modifiers::Control,
        ),
        input::pressed(m, Key::Char('f'), Modifiers::Alt) == input::pressed(
            m,
            Key::Right,
            Modifiers::Control,
        ),
        ({
            let after = input::pressed(m, Key::Left, Modifiers::Control);
            moved_to(m, after, after.cursor) && starts_word(m.value, m.cursor, after.cursor)
        }),
        ({
            let after = input::pressed(m, Key::Right, Modifiers::Control);
            moved_to(m, after, after.cursor) && ends_word(m.value, m.cursor, after.cursor)
        }),
{
    lemma_words_are_whole(m.value, m.cursor);
}

/// Ctrl+_ and Ctrl+/ go back to the value and the cursor before the latest
/// step, and no further; with no step they do nothing.
pub proof fn lemma_undo_goes_one_step_back(m: InputModel, c: char)
    requires
        input::sound(m),
        c == '_' || c == '/',
    ensures
        ({
            let after = input::pressed(m, Key::Char(c), Modifiers::Control);
            &&& m.undo.len() == 0 ==> after == m
            &&& m.undo.len() > 0 ==> {
                &&& after.value == m.undo.last().0
                &&& after.cursor == m.undo.last().1
                &&& after.undo == m.undo.drop_last()
                &&& after.ring == m.ring
                &&& after.last == LastAction::Other
            }
        }),
{
}

/// Any other key with the control or the alt key does nothing, and so do
/// Enter and Escape to what is edited.
pub proof fn lemma_other_keys_do_nothing(m: InputModel, c: char, modifiers: Modifiers)
    ensures
        !seq!['a', 'e', 'b', 'f', 'w', 'k', 'u', 'y', '_', '/'].contains(c) ==> input::pressed(
            m,
            Key::Char(c),
            Modifiers::Control,
        ) == m,
        !seq!['b', 'f', 'd'].contains(c) ==> input::pressed(m, Key::Char(c), Modifiers::Alt) == m,
        input::pressed(m, Key::Enter, modifiers) == m,
        input::pressed(m, Key::Escape, modifiers) == m,
        input::pressed(m, Key::Other, modifiers) == m,
{
    let control = seq!['a', 'e', 'b', 'f', 'w', 'k', 'u', 'y', '_', '/'];
    assert(control[0] == 'a' && control[1] == 'e' && control[2] == 'b' && control[3] == 'f'
        && control[4] == 'w' && control[5] == 'k' && control[6] == 'u' && control[7] == 'y'
        && control[8] == '_' && control[9] == '/');
    let alt = seq!['b', 'f', 'd'];
    assert(alt[0] == 'b' && alt[1] == 'f' && alt[2] == 'd');
}

/// Enter tells the listener for it the value, Escape its own listener; no
/// other key tells either of them.
pub proof fn lemma_submit_and_escape_are_told(m: InputModel, key: Key, modifiers: Modifiers)
    ensures
        key == Key::Enter || key == Key::Char('\n') ==> input::key_event(m, key, modifiers) == (
        match m.submit_listener {
            Some(listener) => Some(InputEventModel::Submitted { listener, value: m.value }),
            None => None,
        }),
        key == Key::Escape ==> input::key_event(m, key, modifiers) == (match m.escape_listener {
            Some(listener) => Some(InputEventModel::Escaped { listener }),
            None => None,
        }),
        key != Key::Enter && key != Key::Char('\n') && key != Key::Escape ==> (match input::key_event(
            m,
            key,
            modifiers,
        ) {
            Some(InputEventModel::Changed { listener, value }) => m.change_listener == Some(
                listener,
            ) && value == input::pressed(m, key, modifiers).value,
            Some(_) => false,
            None => true,
        }),
{
}

/// A key that leaves another value tells the listener for changes; a key that
/// only moves the cursor does not.
pub proof fn lemma_change_is_told(m: InputModel, key: Key, modifiers: Modifiers)
    requires
        input::sound(m),
        m.change_listener is Some,
    ensures
        input::pressed(m, key, modifiers).value != m.value ==> input::key_event(
            m,
            key,
            modifiers,
        ) is Some,
        key == Key::Left || key == Key::Right || key == Key::Home || key == Key::End
            ==> input::key_event(m, key, modifiers) is None,
{
}

} // verus!
