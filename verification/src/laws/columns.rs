//! What holds of the text that a terminal shows.

use vstd::prelude::*;

use crate::input::{drawn, line_of, with_caret, InputModel};
use crate::terminal::{
    char_columns, column_slice, columns_to, parameters_end, plain_from, sequence_end, string_end,
    sum, width_of, window_of, CURSOR_MARKER,
};

verus! {

/// Whether each character of `s` is a printable one of ASCII.
pub open spec fn is_narrow(s: Seq<char>) -> bool {
    forall|i: int| 0 <= i < s.len() ==> ' ' <= #[trigger] s[i] && s[i] <= '~'
}

/// Whether each character of `s` is a Chinese one.
pub open spec fn is_wide(s: Seq<char>) -> bool {
    forall|i: int| 0 <= i < s.len() ==> '\u{4e00}' <= #[trigger] s[i] && s[i] <= '\u{9fff}'
}

/// Whether no character of `s` is an escape.
pub open spec fn is_plain(s: Seq<char>) -> bool {
    forall|i: int| 0 <= i < s.len() ==> #[trigger] s[i] != '\x1b'
}

proof fn lemma_plain_tail(s: Seq<char>, t: Seq<char>, i: int)
    requires
        is_plain(s),
        0 <= i <= s.len(),
    ensures
        plain_from(s + t, i) == s.skip(i) + plain_from(s + t, s.len() as int),
    decreases s.len() - i,
{
    if i < s.len() {
        lemma_plain_tail(s, t, i + 1);
        assert((s + t)[i] == s[i]);
        assert(seq![s[i]] + (s.skip(i + 1) + plain_from(s + t, s.len() as int)) =~= s.skip(i)
            + plain_from(s + t, s.len() as int));
    } else {
        assert(s.skip(i) =~= seq![]);
        assert(seq![] + plain_from(s + t, i) =~= plain_from(s + t, i));
    }
}

proof fn lemma_ends_shift(a: Seq<char>, b: Seq<char>, i: int)
    requires
        0 <= i,
    ensures
        i <= b.len() ==> parameters_end(a + b, a.len() + i) == a.len() + parameters_end(b, i),
        i <= b.len() ==> string_end(a + b, a.len() + i) == a.len() + string_end(b, i),
        i <= b.len() ==> i <= parameters_end(b, i) <= b.len(),
        i <= b.len() ==> i <= string_end(b, i) <= b.len(),
    decreases b.len() - i,
{
    if i < b.len() {
        lemma_ends_shift(a, b, i + 1);
        assert((a + b)[a.len() + i] == b[i]);
        if i + 1 < b.len() {
            assert((a + b)[a.len() + i + 1] == b[i + 1]);
        }
    }
}

proof fn lemma_plain_shift(a: Seq<char>, b: Seq<char>, i: int)
    requires
        0 <= i,
    ensures
        plain_from(a + b, a.len() + i) == plain_from(b, i),
    decreases b.len() - i,
{
    if i < b.len() {
        assert((a + b)[a.len() + i] == b[i]);
        if b[i] == '\x1b' {
            if i + 1 < b.len() {
                assert((a + b)[a.len() + i + 1] == b[i + 1]);
                lemma_ends_shift(a, b, i + 2);
            }
            assert(sequence_end(a + b, a.len() + i) == a.len() + sequence_end(b, i));
            lemma_plain_shift(a, b, sequence_end(b, i));
        } else {
            lemma_plain_shift(a, b, i + 1);
        }
    }
}

/// A text before the first control sequence stays as it is.
pub proof fn lemma_text_stays(s: Seq<char>, t: Seq<char>)
    requires
        is_plain(s),
    ensures
        plain_from(s + t, 0) == s + plain_from(t, 0),
        plain_from(s, 0) == s,
{
    lemma_plain_tail(s, t, 0);
    lemma_plain_shift(s, t, 0);
    assert(s.skip(0) =~= s);
    let none: Seq<char> = seq![];
    lemma_plain_tail(s, none, 0);
    assert(s + none =~= s);
    assert(plain_from(s, s.len() as int) =~= seq![]);
}

proof fn lemma_parameters_run(s: Seq<char>, i: int, n: int)
    requires
        0 <= i <= n < s.len(),
        forall|k: int| i <= k < n ==> !('@' <= #[trigger] s[k] && s[k] <= '~'),
        '@' <= s[n] && s[n] <= '~',
    ensures
        parameters_end(s, i) == n + 1,
    decreases n - i,
{
    if i < n {
        lemma_parameters_run(s, i + 1, n);
    }
}

/// A sequence that starts with an escape and `[` goes, up to its first letter
/// and with it: what is shown is what stands behind it.
pub proof fn lemma_sequence_goes(parameters: Seq<char>, last: char, rest: Seq<char>)
    requires
        forall|k: int|
            0 <= k < parameters.len() ==> !('@' <= #[trigger] parameters[k] && parameters[k]
                <= '~'),
        '@' <= last && last <= '~',
    ensures
        plain_from(seq!['\x1b', '['] + parameters + seq![last] + rest, 0) == plain_from(rest, 0),
{
    let head = seq!['\x1b', '['] + parameters + seq![last];
    let s = head + rest;
    let n = 2 + parameters.len() as int;
    assert(s[0] == '\x1b' && s[1] == '[');
    assert forall|k: int| 2 <= k < n implies !('@' <= #[trigger] s[k] && s[k] <= '~') by {
        assert(s[k] == parameters[k - 2]);
    }
    assert(s[n] == last);
    lemma_parameters_run(s, 2, n);
    assert(plain_from(s, 0) == plain_from(s, n + 1));
    lemma_plain_shift(head, rest, 0);
}

proof fn lemma_string_run(s: Seq<char>, i: int, n: int)
    requires
        0 <= i <= n < s.len(),
        forall|k: int| i <= k < n ==> #[trigger] s[k] != '\x07' && s[k] != '\x1b',
        s[n] == '\x07',
    ensures
        string_end(s, i) == n + 1,
    decreases n - i,
{
    if i < n {
        lemma_string_run(s, i + 1, n);
    }
}

/// A control string goes, up to the bell that ends it and with it.
pub proof fn lemma_control_string_goes(kind: char, body: Seq<char>, rest: Seq<char>)
    requires
        kind == '_' || kind == ']' || kind == 'P' || kind == '^',
        forall|k: int| 0 <= k < body.len() ==> #[trigger] body[k] != '\x07' && body[k] != '\x1b',
    ensures
        plain_from(seq!['\x1b', kind] + body + seq!['\x07'] + rest, 0) == plain_from(rest, 0),
{
    let head = seq!['\x1b', kind] + body + seq!['\x07'];
    let s = head + rest;
    let n = 2 + body.len() as int;
    assert(s[0] == '\x1b' && s[1] == kind);
    assert forall|k: int| 2 <= k < n implies #[trigger] s[k] != '\x07' && s[k] != '\x1b' by {
        assert(s[k] == body[k - 2]);
    }
    assert(s[n] == '\x07');
    lemma_string_run(s, 2, n);
    assert(plain_from(s, 0) == plain_from(s, n + 1));
    lemma_plain_shift(head, rest, 0);
}

proof fn lemma_narrow_columns(s: Seq<char>, n: int)
    requires
        is_narrow(s),
        0 <= n <= s.len() <= usize::MAX,
    ensures
        columns_to(s, n) == n,
    decreases n,
{
    if n > 0 {
        lemma_narrow_columns(s, n - 1);
        assert(char_columns(s[n - 1]) == 1);
    }
}

proof fn lemma_wide_columns(s: Seq<char>, n: int)
    requires
        is_wide(s),
        0 <= n <= s.len(),
        2 * s.len() <= usize::MAX,
    ensures
        columns_to(s, n) == 2 * n,
    decreases n,
{
    if n > 0 {
        lemma_wide_columns(s, n - 1);
        assert(char_columns(s[n - 1]) == 2);
    }
}

/// A printable character of ASCII takes one column.
pub proof fn lemma_narrow_width(s: Seq<char>)
    requires
        is_narrow(s),
        s.len() <= usize::MAX,
    ensures
        width_of(s) == s.len(),
{
    lemma_text_stays(s, seq![]);
    lemma_narrow_columns(s, s.len() as int);
}

/// A Chinese character takes two columns.
pub proof fn lemma_wide_width(s: Seq<char>)
    requires
        is_wide(s),
        2 * s.len() <= usize::MAX,
    ensures
        width_of(s) == 2 * s.len(),
{
    lemma_text_stays(s, seq![]);
    lemma_wide_columns(s, s.len() as int);
}

/// A mark that combines with the character before it takes no column of its
/// own.
pub proof fn lemma_combined_width(s: Seq<char>, mark: char)
    requires
        is_plain(s),
        '\u{300}' <= mark && mark <= '\u{36f}',
    ensures
        width_of(s.push(mark)) == width_of(s),
{
    let t = s.push(mark);
    lemma_text_stays(s, seq![]);
    lemma_text_stays(t, seq![]);
    lemma_columns_agree(s, t, s.len() as int);
    lemma_columns_bound(s, s.len() as int);
    assert(columns_to(t, t.len() as int) == sum(columns_to(t, s.len() as int), 0));
}

proof fn lemma_columns_agree(a: Seq<char>, b: Seq<char>, n: int)
    requires
        0 <= n <= a.len(),
        n <= b.len(),
        forall|i: int| 0 <= i < n ==> a[i] == b[i],
    ensures
        columns_to(a, n) == columns_to(b, n),
    decreases n,
{
    if n > 0 {
        lemma_columns_agree(a, b, n - 1);
    }
}

proof fn lemma_columns_bound(s: Seq<char>, n: int)
    ensures
        columns_to(s, n) <= usize::MAX,
    decreases n,
{
    if n > 0 {
        lemma_columns_bound(s, n - 1);
    }
}

proof fn lemma_narrow_window(s: Seq<char>, start: int, end: int, strict: bool, n: int)
    requires
        is_narrow(s),
        0 <= n <= s.len() < usize::MAX,
        0 <= start <= end <= usize::MAX,
    ensures
        window_of(s, start as nat, end as nat, strict, n) == if n <= start {
            seq![]
        } else if n <= end {
            s.subrange(start, n)
        } else {
            s.subrange(start, end)
        },
    decreases n,
{
    if n > 0 {
        lemma_narrow_window(s, start, end, strict, n - 1);
        lemma_narrow_columns(s, n - 1);
        assert(char_columns(s[n - 1]) == 1);
        let before = window_of(s, start as nat, end as nat, strict, n - 1);
        if start <= n - 1 && n - 1 < end {
            if n - 1 == start {
                assert(before.push(s[n - 1]) =~= s.subrange(start, n));
            } else {
                assert(before.push(s[n - 1]) =~= s.subrange(start, n));
            }
        }
        if start < n && start == end {
            assert(s.subrange(start, end) =~= seq![]);
        }
    }
}

/// Of a text whose characters take one column each, a slice holds those from
/// the first column asked for on, as many as were asked for or as there are.
pub proof fn lemma_narrow_slice(s: Seq<char>, start: nat, length: nat, strict: bool)
    requires
        is_narrow(s),
        s.len() < usize::MAX,
        start + length <= usize::MAX,
    ensures
        start + length <= s.len() ==> column_slice(s, start, length, strict) == s.subrange(
            start as int,
            (start + length) as int,
        ),
        start <= s.len() <= start + length ==> column_slice(s, start, length, strict) == s.skip(
            start as int,
        ),
        s.len() <= start ==> column_slice(s, start, length, strict).len() == 0,
{
    lemma_narrow_window(s, start as int, (start + length) as int, strict, s.len() as int);
    if start <= s.len() && s.len() <= start + length {
        assert(s.subrange(start as int, s.len() as int) =~= s.skip(start as int));
        if s.len() == start {
            assert(s.skip(start as int) =~= seq![]);
        }
    }
    if start + length <= s.len() && s.len() <= start {
        assert(s.subrange(start as int, (start + length) as int) =~= seq![]);
    }
}

proof fn lemma_wide_window(s: Seq<char>, end: int, n: int)
    requires
        is_wide(s),
        0 <= n <= s.len(),
        2 * s.len() < usize::MAX,
        0 <= end < usize::MAX,
    ensures
        window_of(s, 0, end as nat, true, n) == if 2 * n <= end {
            s.take(n)
        } else {
            s.take(end / 2)
        },
    decreases n,
{
    if n > 0 {
        lemma_wide_window(s, end, n - 1);
        lemma_wide_columns(s, n - 1);
        assert(char_columns(s[n - 1]) == 2);
        if 2 * n <= end {
            assert(s.take(n - 1).push(s[n - 1]) =~= s.take(n));
        } else if 2 * (n - 1) <= end {
            assert(end / 2 == n - 1);
        }
    } else {
        assert(s.take(0) =~= seq![]);
    }
}

/// A strict slice leaves out a character that lies in it by half.
pub proof fn lemma_half_is_left_out(s: Seq<char>, length: nat)
    requires
        is_wide(s),
        2 * s.len() < usize::MAX,
        length < 2 * s.len(),
    ensures
        column_slice(s, 0, length, true) == s.take(length as int / 2),
{
    lemma_wide_window(s, length as int, s.len() as int);
}

proof fn lemma_caret_strips(prompt: Seq<char>, shown: Seq<char>, caret: nat, focused: bool)
    requires
        is_plain(prompt),
        is_plain(shown),
        caret <= shown.len(),
    ensures
        plain_from(with_caret(prompt, shown, caret, focused), 0) == prompt + if caret < shown.len() {
            shown
        } else {
            shown.push(' ')
        },
{
    reveal_strlit(" ");
    reveal_strlit("\x1b[7m");
    reveal_strlit("\x1b[27m");
    reveal_strlit("\x1b[0m");
    reveal_strlit("\x1b_pi:c\x07");
    let none: Seq<char> = seq![];
    let at = if caret < shown.len() {
        seq![shown[caret as int]]
    } else {
        " "@
    };
    let behind = if caret < shown.len() {
        shown.skip(caret as int + 1)
    } else {
        seq![]
    };
    let front = shown.take(caret as int);
    assert(is_plain(at));
    assert(is_plain(behind));
    assert(is_plain(front));
    let reset = "\x1b[0m"@;
    assert(seq!['\x1b', '['] + seq!['0'] + seq!['m'] + none =~= reset);
    lemma_sequence_goes(seq!['0'], 'm', none);
    assert(plain_from(none, 0) =~= seq![]);
    let tail = behind + reset;
    lemma_text_stays(behind, reset);
    assert(plain_from(tail, 0) =~= behind);
    let line = with_caret(prompt, shown, caret, focused);
    let whole = if caret < shown.len() {
        shown
    } else {
        shown.push(' ')
    };
    assert(front + (at + behind) =~= whole);
    if focused {
        let t3 = "\x1b[27m"@ + tail;
        assert(seq!['\x1b', '['] + seq!['2', '7'] + seq!['m'] + tail =~= t3);
        lemma_sequence_goes(seq!['2', '7'], 'm', tail);
        let t2 = at + t3;
        lemma_text_stays(at, t3);
        let t1 = "\x1b[7m"@ + t2;
        assert(seq!['\x1b', '['] + seq!['7'] + seq!['m'] + t2 =~= t1);
        lemma_sequence_goes(seq!['7'], 'm', t2);
        let t0 = CURSOR_MARKER@ + t1;
        assert(seq!['\x1b', '_'] + seq!['p', 'i', ':', 'c'] + seq!['\x07'] + t1 =~= t0);
        lemma_control_string_goes('_', seq!['p', 'i', ':', 'c'], t1);
        lemma_text_stays(front, t0);
        lemma_text_stays(prompt, front + t0);
        assert(line =~= prompt + (front + t0));
        assert(prompt + (front + (at + behind)) =~= prompt + whole);
    } else {
        lemma_text_stays(at, tail);
        lemma_text_stays(front, at + tail);
        lemma_text_stays(prompt, front + (at + tail));
        assert(line =~= prompt + (front + (at + tail)));
        assert(prompt + (front + (at + behind)) =~= prompt + whole);
    }
}

/// Whether an input and what it is drawn with take one column for each
/// character.
pub open spec fn draws_narrow(m: InputModel, width: nat) -> bool {
    &&& is_narrow(m.prompt)
    &&& is_narrow(m.value)
    &&& m.prompt.len() + m.value.len() + width < usize::MAX
    &&& 0 <= m.cursor <= m.value.len()
    &&& m.prompt.len() < width
    &&& m.value.len() > 0 || m.focused || m.placeholder is None
}

proof fn lemma_drawn_narrow(m: InputModel, width: nat)
    requires
        draws_narrow(m, width),
    ensures
        crate::terminal::width_of(m.prompt) == m.prompt.len(),
        crate::terminal::width_of(m.value) == m.value.len(),
        crate::terminal::width_of(m.value.take(m.cursor)) == m.cursor,
        is_plain(m.prompt),
        is_plain(m.value),
{
    lemma_narrow_width(m.prompt);
    lemma_narrow_width(m.value);
    assert(is_narrow(m.value.take(m.cursor)));
    lemma_narrow_width(m.value.take(m.cursor));
}

/// A value with room for it is shown whole behind the prompt, with a blank
/// where the cursor stands behind it.
pub proof fn lemma_short_value_is_shown(m: InputModel, width: nat)
    requires
        draws_narrow(m, width),
        m.prompt.len() + m.value.len() < width,
    ensures
        plain_from(line_of(m, width), 0) == m.prompt + if m.cursor < m.value.len() {
            m.value
        } else {
            m.value.push(' ')
        },
        m.focused ==> line_of(m, width).take((m.prompt.len() + m.cursor + 7) as int)
            == m.prompt + m.value.take(m.cursor) + CURSOR_MARKER@,
{
    lemma_drawn_narrow(m, width);
    lemma_caret_strips(m.prompt, m.value, m.cursor as nat, m.focused);
    reveal_strlit("\x1b_pi:c\x07");
    if m.focused {
        assert(line_of(m, width).take((m.prompt.len() + m.cursor + 7) as int) =~= m.prompt
            + m.value.take(m.cursor) + CURSOR_MARKER@);
    }
}

/// A value too long for the room shows as many characters in a row as there
/// is room for, or up to its end, that under the cursor among them and behind
/// the marker.
pub proof fn lemma_long_value_shows_the_cursor(m: InputModel, width: nat) -> (shown: (int, int))
    requires
        draws_narrow(m, width),
        m.prompt.len() + m.value.len() >= width,
        m.cursor < m.value.len(),
    ensures
        0 <= shown.0 <= m.cursor < shown.1 <= m.value.len(),
        shown.1 - shown.0 == width - m.prompt.len() || (shown.1 == m.value.len() && shown.1
            - shown.0 == width - m.prompt.len() - 1),
        plain_from(line_of(m, width), 0) == m.prompt + m.value.subrange(shown.0, shown.1),
        m.focused ==> line_of(m, width).take((m.prompt.len() + (m.cursor - shown.0) + 7) as int)
            == m.prompt + m.value.subrange(shown.0, m.cursor) + CURSOR_MARKER@,
{
    lemma_drawn_narrow(m, width);
    let available = (width - m.prompt.len()) as nat;
    let from = crate::input::first_column(m.cursor as nat, m.value.len(), available) as int;
    let to = if from + available <= m.value.len() {
        from + available
    } else {
        m.value.len() as int
    };
    assert(0 <= from <= m.cursor < to <= m.value.len());
    lemma_narrow_slice(m.value, from as nat, available, true);
    lemma_narrow_slice(m.value, from as nat, (m.cursor - from) as nat, true);
    let shown = m.value.subrange(from, to);
    assert(to == m.value.len() ==> shown =~= m.value.skip(from));
    let caret = (m.cursor - from) as nat;
    assert(drawn(m, available) == (shown, caret));
    assert(is_plain(shown));
    lemma_caret_strips(m.prompt, shown, caret, m.focused);
    reveal_strlit("\x1b_pi:c\x07");
    if m.focused {
        assert(line_of(m, width).take((m.prompt.len() + (m.cursor - from) + 7) as int)
            =~= m.prompt + m.value.subrange(from, m.cursor) + CURSOR_MARKER@);
    }
    (from, to)
}

/// With the cursor behind a value too long for the room, the end of the value
/// is shown, and a blank under the cursor.
pub proof fn lemma_end_of_long_value_is_shown(m: InputModel, width: nat)
    requires
        draws_narrow(m, width),
        m.prompt.len() + m.value.len() >= width,
        m.prompt.len() + 2 < width,
        m.cursor == m.value.len(),
    ensures
        plain_from(line_of(m, width), 0) == m.prompt + m.value.skip(
            m.value.len() - (width - m.prompt.len() - 1),
        ).push(' '),
{
    lemma_drawn_narrow(m, width);
    let available = (width - m.prompt.len()) as nat;
    let window = (available - 1) as nat;
    let from = crate::input::first_column(m.cursor as nat, m.value.len(), window) as int;
    assert(from == m.value.len() - window);
    lemma_narrow_slice(m.value, from as nat, window, true);
    let shown = m.value.skip(from);
    assert(m.value.subrange(from, from + window) =~= shown);
    assert(drawn(m, available) == (shown, window));
    assert(is_plain(shown));
    lemma_caret_strips(m.prompt, shown, window, m.focused);
}

} // verus!
