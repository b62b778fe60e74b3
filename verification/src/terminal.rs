//! Text on a terminal: control sequences and columns.

use vstd::prelude::*;

use crate::text;

verus! {

/// A sequence of no width that marks where the cursor belongs.
pub const CURSOR_MARKER: &'static str = "\x1b_pi:c\x07";

/// The end of a control sequence's parameters, from the `i`th character on.
pub open spec fn parameters_end(s: Seq<char>, i: int) -> int
    decreases s.len() - i,
{
    if i < 0 || i >= s.len() {
        s.len() as int
    } else if '@' <= s[i] && s[i] <= '~' {
        i + 1
    } else {
        parameters_end(s, i + 1)
    }
}

/// The end of a control string, from the `i`th character on: a bell, or an
/// escape and a backslash.
pub open spec fn string_end(s: Seq<char>, i: int) -> int
    decreases s.len() - i,
{
    if i < 0 || i >= s.len() {
        s.len() as int
    } else if s[i] == '\x07' {
        i + 1
    } else if s[i] == '\x1b' && i + 1 < s.len() && s[i + 1] == '\\' {
        i + 2
    } else {
        string_end(s, i + 1)
    }
}

/// The end of the sequence whose escape character is the `i`th.
pub open spec fn sequence_end(s: Seq<char>, i: int) -> int {
    if i + 1 >= s.len() {
        i + 1
    } else if s[i + 1] == '[' {
        parameters_end(s, i + 2)
    } else if s[i + 1] == '_' || s[i + 1] == ']' || s[i + 1] == 'P' || s[i + 1] == '^' {
        string_end(s, i + 2)
    } else {
        i + 2
    }
}

proof fn lemma_ends(s: Seq<char>, i: int)
    requires
        0 <= i,
    ensures
        i <= s.len() ==> i <= parameters_end(s, i) <= s.len(),
        i <= s.len() ==> i <= string_end(s, i) <= s.len(),
    decreases s.len() - i,
{
    if i < s.len() {
        lemma_ends(s, i + 1);
    }
}

/// The text of `s`, from the `i`th character on, without control sequences.
pub open spec fn plain_from(s: Seq<char>, i: int) -> Seq<char>
    decreases s.len() - i,
    via plain_from_decreases
{
    if i < 0 || i >= s.len() {
        seq![]
    } else if s[i] == '\x1b' {
        plain_from(s, sequence_end(s, i))
    } else {
        seq![s[i]] + plain_from(s, i + 1)
    }
}

#[via_fn]
proof fn plain_from_decreases(s: Seq<char>, i: int) {
    if 0 <= i < s.len() && s[i] == '\x1b' && i + 1 < s.len() {
        lemma_ends(s, i + 2);
    }
}

fn find_parameters_end(chars: &Vec<char>, from: usize) -> (r: usize)
    requires
        from <= chars@.len(),
    ensures
        r == parameters_end(chars@, from as int),
{
    let mut i: usize = from;
    while i < chars.len()
        invariant
            i <= chars@.len(),
            parameters_end(chars@, from as int) == parameters_end(chars@, i as int),
        decreases chars.len() - i,
    {
        if '@' <= chars[i] && chars[i] <= '~' {
            return i + 1;
        }
        i += 1;
    }
    chars.len()
}

fn find_string_end(chars: &Vec<char>, from: usize) -> (r: usize)
    requires
        from <= chars@.len(),
    ensures
        r == string_end(chars@, from as int),
{
    let mut i: usize = from;
    while i < chars.len()
        invariant
            i <= chars@.len(),
            string_end(chars@, from as int) == string_end(chars@, i as int),
        decreases chars.len() - i,
    {
        if chars[i] == '\x07' {
            return i + 1;
        }
        if chars[i] == '\x1b' && i + 1 < chars.len() && chars[i + 1] == '\\' {
            return i + 2;
        }
        i += 1;
    }
    chars.len()
}

/// The text of `s` without control sequences.
pub fn strip_ansi(s: &str) -> (out: String)
    ensures
        out@ == plain_from(s@, 0),
{
    let chars = text::chars_of(s);
    let mut out = String::new();
    assert(out@ =~= seq![]);
    let mut i: usize = 0;
    while i < chars.len()
        invariant
            i <= chars@.len(),
            chars@ == s@,
            plain_from(s@, 0) == out@ + plain_from(s@, i as int),
        decreases chars.len() - i,
    {
        if chars[i] == '\x1b' {
            proof {
                if i + 1 < chars@.len() {
                    lemma_ends(chars@, i + 2);
                }
            }
            let next: usize = if i + 1 >= chars.len() {
                i + 1
            } else if chars[i + 1] == '[' {
                find_parameters_end(&chars, i + 2)
            } else if chars[i + 1] == '_' || chars[i + 1] == ']' || chars[i + 1] == 'P'
                || chars[i + 1] == '^' {
                find_string_end(&chars, i + 2)
            } else {
                i + 2
            };
            assert(next == sequence_end(s@, i as int));
            i = next;
        } else {
            let ghost before = out@;
            out.push(chars[i]);
            assert(out@ + plain_from(s@, i + 1) =~= before + plain_from(s@, i as int));
            i += 1;
        }
    }
    assert(out@ + plain_from(s@, i as int) =~= out@);
    out
}

/// How many columns a character takes.
#[verifier::allow_in_spec]
pub fn char_columns(c: char) -> usize
    returns
        (if text::is_control(c) || ('\u{300}' <= c && c <= '\u{36f}') || ('\u{200b}' <= c && c
            <= '\u{200f}') || ('\u{fe00}' <= c && c <= '\u{fe0f}') {
            0usize
        } else if ('\u{1100}' <= c && c <= '\u{115f}') || ('\u{2e80}' <= c && c <= '\u{303e}') || (
        '\u{3041}' <= c && c <= '\u{a4cf}') || ('\u{ac00}' <= c && c <= '\u{d7a3}') || ('\u{f900}'
            <= c && c <= '\u{faff}') || ('\u{fe30}' <= c && c <= '\u{fe6f}') || ('\u{ff00}' <= c
            && c <= '\u{ff60}') || ('\u{ffe0}' <= c && c <= '\u{ffe6}') || ('\u{1f300}' <= c && c
            <= '\u{1faff}') || ('\u{20000}' <= c && c <= '\u{3fffd}') {
            2usize
        } else {
            1usize
        }),
{
    if text::is_control(c) || ('\u{300}' <= c && c <= '\u{36f}') || ('\u{200b}' <= c && c
        <= '\u{200f}') || ('\u{fe00}' <= c && c <= '\u{fe0f}') {
        0
    } else if ('\u{1100}' <= c && c <= '\u{115f}') || ('\u{2e80}' <= c && c <= '\u{303e}') || (
    '\u{3041}' <= c && c <= '\u{a4cf}') || ('\u{ac00}' <= c && c <= '\u{d7a3}') || ('\u{f900}' <= c
        && c <= '\u{faff}') || ('\u{fe30}' <= c && c <= '\u{fe6f}') || ('\u{ff00}' <= c && c
        <= '\u{ff60}') || ('\u{ffe0}' <= c && c <= '\u{ffe6}') || ('\u{1f300}' <= c && c
        <= '\u{1faff}') || ('\u{20000}' <= c && c <= '\u{3fffd}') {
        2
    } else {
        1
    }
}

/// A sum, as far as it fits.
pub open spec fn sum(a: nat, b: nat) -> nat {
    if a + b > usize::MAX {
        usize::MAX as nat
    } else {
        a + b
    }
}

/// A difference, or nothing where there is none.
pub open spec fn excess(a: nat, b: nat) -> nat {
    if a > b {
        (a - b) as nat
    } else {
        0
    }
}

/// How many columns the first `n` characters take.
pub open spec fn columns_to(s: Seq<char>, n: int) -> nat
    decreases n,
{
    if n <= 0 {
        0
    } else {
        sum(columns_to(s, n - 1), char_columns(s[n - 1]) as nat)
    }
}

/// How many columns a text takes, without its control sequences.
pub open spec fn width_of(s: Seq<char>) -> nat {
    columns_to(plain_from(s, 0), plain_from(s, 0).len() as int)
}

/// How many columns a text takes, without its control sequences.
pub fn visible_width(s: &str) -> (r: usize)
    ensures
        r == width_of(s@),
{
    let plain = strip_ansi(s);
    let chars = text::chars_of(plain.as_str());
    let mut columns: usize = 0;
    let mut i: usize = 0;
    while i < chars.len()
        invariant
            i <= chars@.len(),
            columns == columns_to(chars@, i as int),
        decreases chars.len() - i,
    {
        columns = columns.saturating_add(char_columns(chars[i]));
        i += 1;
    }
    columns
}

/// Whether the `i`th character of `s` lies in the columns from `start` on
/// and before `end`; where `strict`, all of it.
pub open spec fn in_window(s: Seq<char>, start: nat, end: nat, strict: bool, i: int) -> bool {
    let column = columns_to(s, i);
    start <= column && column < end && (!strict || sum(column, char_columns(s[i]) as nat) <= end)
}

/// Those of the first `n` characters of `s` that lie in the columns from
/// `start` on and before `end`.
pub open spec fn window_of(s: Seq<char>, start: nat, end: nat, strict: bool, n: int) -> Seq<char>
    decreases n,
{
    if n <= 0 {
        seq![]
    } else {
        let rest = window_of(s, start, end, strict, n - 1);
        if in_window(s, start, end, strict, n - 1) {
            rest.push(s[n - 1])
        } else {
            rest
        }
    }
}

/// What of `s` lies in `length` columns from `start` on.
pub open spec fn column_slice(s: Seq<char>, start: nat, length: nat, strict: bool) -> Seq<char> {
    window_of(s, start, sum(start, length), strict, s.len() as int)
}

/// What of `s` lies in `length` columns from `start` on. Where `strict`, a
/// character that lies there in part is left out.
pub fn slice_by_column(s: &str, start: usize, length: usize, strict: bool) -> (out: String)
    ensures
        out@ == column_slice(s@, start as nat, length as nat, strict),
{
    let end: usize = start.saturating_add(length);
    let chars = text::chars_of(s);
    let mut out = String::new();
    assert(out@ =~= seq![]);
    let mut column: usize = 0;
    let mut i: usize = 0;
    while i < chars.len()
        invariant
            i <= chars@.len(),
            chars@ == s@,
            end == sum(start as nat, length as nat),
            column == columns_to(s@, i as int),
            out@ == window_of(s@, start as nat, end as nat, strict, i as int),
        decreases chars.len() - i,
    {
        let next: usize = column.saturating_add(char_columns(chars[i]));
        if start <= column && column < end && (!strict || next <= end) {
            out.push(chars[i]);
        }
        column = next;
        i += 1;
    }
    out
}

proof fn lemma_columns_grow(s: Seq<char>, i: int, j: int)
    requires
        0 <= i <= j <= s.len(),
    ensures
        columns_to(s, i) <= columns_to(s, j) <= usize::MAX,
    decreases j,
{
    if j > 0 {
        if i < j {
            lemma_columns_grow(s, i, j - 1);
        } else {
            lemma_columns_grow(s, i - 1, j - 1);
        }
    }
}

proof fn lemma_window_fits(s: Seq<char>, start: nat, end: nat, n: int)
    requires
        0 <= n <= s.len(),
        start <= end,
        columns_to(s, s.len() as int) < usize::MAX,
    ensures
        start + columns_to(
            window_of(s, start, end, true, n),
            window_of(s, start, end, true, n).len() as int,
        ) <= if columns_to(s, n) < start {
            start as int
        } else if columns_to(s, n) < end {
            columns_to(s, n) as int
        } else {
            end as int
        },
    decreases n,
{
    if n > 0 {
        lemma_window_fits(s, start, end, n - 1);
        lemma_columns_grow(s, n, s.len() as int);
        lemma_columns_grow(s, n - 1, n);
        let rest = window_of(s, start, end, true, n - 1);
        let out = window_of(s, start, end, true, n);
        if in_window(s, start, end, true, n - 1) {
            lemma_columns_agree(rest, out, rest.len() as int);
            assert(out.len() == rest.len() + 1);
            assert(out[rest.len() as int] == s[n - 1]);
        }
    }
}

proof fn lemma_columns_agree(a: Seq<char>, b: Seq<char>, n: int)
    requires
        0 <= n <= a.len(),
        n <= b.len(),
        forall|i: int| 0 <= i < n ==> a[i] == b[i],
    ensures
        columns_to(a, n) == columns_to(b, n),
    decreases n,
{
    if n > 0 {
        lemma_columns_agree(a, b, n - 1);
    }
}

/// A strict slice takes no more columns than were asked for.
pub proof fn lemma_slice_fits(s: Seq<char>, start: nat, length: nat)
    requires
        columns_to(s, s.len() as int) < usize::MAX,
        start <= usize::MAX,
    ensures
        columns_to(
            column_slice(s, start, length, true),
            column_slice(s, start, length, true).len() as int,
        ) <= length,
{
    lemma_window_fits(s, start, sum(start, length), s.len() as int);
}

} // verus!
