//! What the operations on texts keep of a text.

use vstd::prelude::*;

use crate::laws::texts;
use crate::release;
use crate::text;

verus! {

/// A number written out and read again is that number.
pub proof fn lemma_number_round_trip(n: nat)
    ensures
        text::decimal(text::digits_of(n)) == n,
        text::all_digits(text::digits_of(n)),
        n >= 10 ==> text::digits_of(n).len() == text::digits_of(n / 10).len() + 1,
        n < 10 ==> text::digits_of(n).len() == 1,
    decreases n,
{
    let last = ('0' as u32 + n % 10) as char;
    let d = text::digits_of(n);
    assert('0' as u32 == 48);
    assert(last as int == 48 + n % 10);
    if n < 10 {
        assert(d == seq![last]);
        assert(d.drop_last() =~= seq![]);
        assert(text::decimal(d.drop_last()) == 0);
        assert(d.last() == last);
    } else {
        lemma_number_round_trip(n / 10);
        assert(d.drop_last() =~= text::digits_of(n / 10));
        assert(d.last() == last);
        assert forall|i: int| 0 <= i < d.len() implies text::is_digit(#[trigger] d[i]) by {
            if i + 1 < d.len() {
                assert(d[i] == text::digits_of(n / 10)[i]);
            }
        }
    }
}

/// A text without what is looked for stays; where it is found first, what
/// stands before it stays, and what stands behind it is gone through.
pub proof fn lemma_replaced_where_found(
    a: Seq<char>,
    from: Seq<char>,
    b: Seq<char>,
    to: Seq<char>,
)
    requires
        from.len() > 0,
        !a.contains(from[0]),
    ensures
        text::replaced(a, from, to) == a,
        text::replaced(a + from + b, from, to) == a + to + text::replaced(b, from, to),
{
    texts::lemma_undivided(a, from);
    texts::lemma_found(a, from, b);
    let s = a + from + b;
    assert(s.take(a.len() as int) =~= a);
    assert(s.skip((a.len() + from.len()) as int) =~= b);
}

/// A line ends with its line feed, and a carriage return before that goes with
/// it; an end of the text without one is a line too.
pub proof fn lemma_lines(a: Seq<char>, b: Seq<char>)
    requires
        !a.contains('\n'),
    ensures
        a.len() > 0 ==> text::lines_of(a) == seq![a],
        !a.contains('\r') ==> text::lines_of(a + seq!['\n'] + b) == seq![a] + text::lines_of(b),
        !a.contains('\r') ==> text::lines_of(a + seq!['\r', '\n'] + b) == seq![a]
            + text::lines_of(b),
{
    reveal_strlit("\n");
    assert("\n"@ =~= seq!['\n']);
    texts::lemma_undivided(a, "\n"@);
    texts::lemma_found(a, "\n"@, b);
    let s = a + seq!['\n'] + b;
    assert(s.take(a.len() as int) =~= a);
    assert(s.skip(a.len() as int + 1) =~= b);
    if !a.contains('\r') {
        if a.len() > 0 {
            assert(a.contains(a.last()));
        }
        let c = a.push('\r');
        assert(!c.contains('\n')) by {
            if c.contains('\n') {
                let k = choose|k: int| 0 <= k < c.len() && c[k] == '\n';
                assert(a[k] == '\n');
            }
        }
        texts::lemma_found(c, "\n"@, b);
        let t = c + "\n"@ + b;
        assert(t =~= a + seq!['\r', '\n'] + b);
        assert(t.take(c.len() as int) =~= c);
        assert(t.skip(c.len() as int + 1) =~= b);
        assert(c.drop_last() =~= a);
    }
}

proof fn lemma_joined_front(first: Seq<char>, rest: Seq<Seq<char>>, separator: Seq<char>)
    requires
        rest.len() > 0,
    ensures
        text::joined(seq![first] + rest, separator) == first + separator + text::joined(
            rest,
            separator,
        ),
    decreases rest.len(),
{
    let all = seq![first] + rest;
    assert(all.last() == rest.last());
    if rest.len() == 1 {
        assert(all.drop_last() =~= seq![first]);
        assert(text::joined(seq![first], separator) == first);
        assert(text::joined(rest, separator) == rest.last());
    } else {
        lemma_joined_front(first, rest.drop_last(), separator);
        assert(all.drop_last() =~= seq![first] + rest.drop_last());
        assert(first + separator + text::joined(rest.drop_last(), separator) + separator
            + rest.last() =~= first + separator + (text::joined(rest.drop_last(), separator)
            + separator + rest.last()));
    }
}

/// The pieces of a text with the separators between them are the text.
pub proof fn lemma_pieces_make_the_text(s: Seq<char>, separator: Seq<char>)
    requires
        separator.len() > 0,
    ensures
        text::joined(text::pieces(s, separator), separator) == s,
        text::pieces(s, separator).len() > 0,
    decreases s.len(),
{
    text::lemma_index_from(s, separator, 0);
    match text::index_of(s, separator) {
        Some(i) => {
            let rest = s.skip((i + separator.len()) as int);
            lemma_pieces_make_the_text(rest, separator);
            lemma_joined_front(s.take(i), text::pieces(rest, separator), separator);
            assert(s.subrange(i, i + separator.len()) == separator);
            assert(s.take(i) + separator + rest =~= s);
        },
        None => {},
    }
}

proof fn lemma_word_run(w: Seq<char>, rest: Seq<char>, i: int)
    requires
        0 <= i <= w.len(),
        forall|k: int| 0 <= k < w.len() ==> !text::is_whitespace(#[trigger] w[k]),
        rest.len() > 0 ==> text::is_whitespace(rest[0]),
    ensures
        text::past_word(w + rest, i) == w.len(),
    decreases w.len() - i,
{
    let s = w + rest;
    if i < w.len() {
        assert(s[i] == w[i]);
        lemma_word_run(w, rest, i + 1);
    } else if i < s.len() {
        assert(s[i] == rest[0]);
    }
}

/// Words stand between white space: what stands before the first one is
/// passed over, and the rest is read after it.
pub proof fn lemma_words(space: Seq<char>, w: Seq<char>, rest: Seq<char>)
    requires
        forall|k: int| 0 <= k < space.len() ==> text::is_whitespace(#[trigger] space[k]),
        w.len() > 0,
        forall|k: int| 0 <= k < w.len() ==> !text::is_whitespace(#[trigger] w[k]),
        rest.len() > 0 ==> text::is_whitespace(rest[0]),
    ensures
        text::words_of(space + w + rest) == seq![w] + text::words_of(rest),
{
    let s = space + w + rest;
    lemma_space_run(space, w + rest, 0);
    assert(space + (w + rest) =~= s);
    let t = text::trim_start_of(s);
    assert(t =~= w + rest);
    lemma_word_run(w, rest, 0);
    assert(t.take(w.len() as int) =~= w);
    assert(t.skip(w.len() as int) =~= rest);
}

proof fn lemma_space_run(space: Seq<char>, rest: Seq<char>, i: int)
    requires
        0 <= i <= space.len(),
        forall|k: int| 0 <= k < space.len() ==> text::is_whitespace(#[trigger] space[k]),
        rest.len() > 0,
        !text::is_whitespace(rest[0]),
    ensures
        text::past_space(space + rest, i) == space.len(),
    decreases space.len() - i,
{
    let s = space + rest;
    if i < space.len() {
        assert(s[i] == space[i]);
        lemma_space_run(space, rest, i + 1);
    } else {
        assert(s[i] == rest[0]);
    }
}

proof fn lemma_fitting(s: Seq<char>, max: nat, k: int)
    requires
        0 <= k <= s.len(),
        text::width_of(s.take(k)) <= max,
        text::width_of(s) > max,
    ensures
        k <= text::fitting(s, max, k) < s.len(),
        text::width_of(s.take(text::fitting(s, max, k))) <= max,
        text::width_of(s.take(text::fitting(s, max, k) + 1)) > max,
    decreases s.len() - k,
{
    if k == s.len() {
        assert(s.take(k) =~= s);
    } else if text::width_of(s.take(k + 1)) <= max {
        lemma_fitting(s, max, k + 1);
    }
}

/// A text that fits stays; of one that does not, as many characters stay as
/// fit, and three dots stand behind them.
pub proof fn lemma_truncated_text(s: Seq<char>, max: nat)
    ensures
        text::width_of(s) <= max ==> text::truncated(s, max) == s,
        text::width_of(s) > max ==> exists|n: int|
            0 <= n < s.len() && text::width_of(#[trigger] s.take(n)) <= max < text::width_of(
                s.take(n + 1),
            ) && text::truncated(s, max) == s.take(n) + seq!['.', '.', '.'],
{
    if text::width_of(s) > max {
        assert(s.take(0) =~= seq![]);
        lemma_fitting(s, max, 0);
        reveal_strlit("...");
        assert("..."@ =~= seq!['.', '.', '.']);
        let n = text::fitting(s, max, 0);
        assert(text::width_of(s.take(n)) <= max);
    }
}

/// Whether each character of `s` is one of ASCII.
pub open spec fn is_ascii(s: Seq<char>) -> bool {
    forall|i: int| 0 <= i < s.len() ==> #[trigger] s[i] <= '\u{7f}'
}

proof fn lemma_ascii_width(s: Seq<char>)
    requires
        is_ascii(s),
    ensures
        text::width_of(s) == s.len(),
    decreases s.len(),
{
    if s.len() > 0 {
        lemma_ascii_width(s.drop_last());
    }
}

proof fn lemma_ascii_boundary(s: Seq<char>, k: nat, n: int)
    requires
        is_ascii(s),
        0 <= n <= k <= s.len(),
    ensures
        release::boundary_from(s, k, n) == Some(k as int),
    decreases k - n,
{
    lemma_ascii_width(s.take(n));
    if n < k {
        lemma_ascii_boundary(s, k, n + 1);
    }
}

/// A crate's entry in the index lies below the number of its letters, up to
/// three, or else below its first two letters and its next two.
pub proof fn lemma_index_path(name: Seq<char>)
    requires
        is_ascii(text::lower_of(name)),
    ensures
        ({
            let n = text::lower_of(name);
            let path = release::index_path(name);
            &&& n.len() == 1 ==> path == seq!['1', '/'] + n
            &&& n.len() == 2 ==> path == seq!['2', '/'] + n
            &&& n.len() == 3 ==> path == seq!['3', '/', n[0], '/'] + n
            &&& n.len() >= 4 ==> path == seq![n[0], n[1], '/', n[2], n[3], '/'] + n
        }),
{
    let n = text::lower_of(name);
    let path = release::index_path(name);
    lemma_ascii_width(n);
    reveal_strlit("1/");
    reveal_strlit("2/");
    reveal_strlit("3/");
    reveal_strlit("/");
    if n.len() == 1 {
        assert(path =~= seq!['1', '/'] + n);
    }
    if n.len() == 2 {
        assert(path =~= seq!['2', '/'] + n);
    }
    if n.len() == 3 {
        lemma_ascii_boundary(n, 1, 0);
        assert(path =~= seq!['3', '/', n[0], '/'] + n);
    }
    if n.len() >= 4 {
        lemma_ascii_boundary(n, 2, 0);
        lemma_ascii_boundary(n, 4, 0);
        assert(path =~= seq![n[0], n[1], '/', n[2], n[3], '/'] + n);
    }
}

} // verus!
