//! Searching, splitting and trimming texts.

use vstd::prelude::*;

use crate::text;

verus! {

/// A text without the first character of a separator is not divided by it.
pub proof fn lemma_undivided(s: Seq<char>, separator: Seq<char>)
    requires
        separator.len() > 0,
        !s.contains(separator[0]),
    ensures
        text::index_of(s, separator) is None,
        text::cut(s, separator) is None,
        text::pieces(s, separator) == seq![s],
{
    text::lemma_index_from(s, separator, 0);
    if let Some(k) = text::index_of(s, separator) {
        assert(s.subrange(k, k + separator.len())[0] == s[k]);
        assert(s.contains(s[k]));
    }
}

/// A separator is found where it stands first.
pub proof fn lemma_found(a: Seq<char>, separator: Seq<char>, b: Seq<char>)
    requires
        separator.len() > 0,
        !a.contains(separator[0]),
    ensures
        text::index_of(a + separator + b, separator) == Some(a.len() as int),
{
    let s = a + separator + b;
    let k = a.len() as int;
    text::lemma_index_from(s, separator, 0);
    assert(s.subrange(k, k + separator.len()) =~= separator);
    assert(text::stands_at(s, separator, k));
    let found = text::index_of(s, separator);
    assert(found is Some);
    let i = found->0;
    assert(i <= k);
    if i < k {
        assert(s.subrange(i, i + separator.len())[0] == a[i]);
        assert(a.contains(a[i]));
    }
}

/// What stands before the first separator is the first piece; what stands
/// behind it is divided on.
pub proof fn lemma_divided(a: Seq<char>, separator: Seq<char>, b: Seq<char>)
    requires
        separator.len() > 0,
        !a.contains(separator[0]),
    ensures
        text::index_of(a + separator + b, separator) == Some(a.len() as int),
        text::cut(a + separator + b, separator) == Some((a, b)),
        text::pieces(a + separator + b, separator) == seq![a] + text::pieces(b, separator),
{
    let s = a + separator + b;
    let k = a.len() as int;
    lemma_found(a, separator, b);
    assert(s.take(k) =~= a);
    assert(s.skip(k + separator.len()) =~= b);
}

/// A text that neither starts nor ends with white space is trimmed already.
pub proof fn lemma_trimmed(s: Seq<char>)
    requires
        s.len() > 0 ==> !text::is_whitespace(s[0]) && !text::is_whitespace(s.last()),
    ensures
        text::trim_of(s) == s,
{
    text::lemma_trim_is(s, 0, s.len() as int);
    assert(s.subrange(0, s.len() as int) =~= s);
}

/// White space round a text is all that trimming takes away.
pub proof fn lemma_trim_takes_space(a: Seq<char>, s: Seq<char>, b: Seq<char>)
    requires
        s.len() > 0,
        !text::is_whitespace(s[0]),
        !text::is_whitespace(s.last()),
        forall|i: int| 0 <= i < a.len() ==> text::is_whitespace(#[trigger] a[i]),
        forall|i: int| 0 <= i < b.len() ==> text::is_whitespace(#[trigger] b[i]),
    ensures
        text::trim_of(a + s + b) == s,
{
    let t = a + s + b;
    let from = a.len() as int;
    let to = (a.len() + s.len()) as int;
    assert forall|i: int| to <= i < t.len() implies text::is_whitespace(#[trigger] t[i]) by {
        assert(t[i] == b[i - to]);
    }
    assert(t[from] == s[0] && t[to - 1] == s.last());
    text::lemma_trim_is(t, from, to);
    assert(t.subrange(from, to) =~= s);
}

/// A text that does not start with `c` keeps its start.
pub proof fn lemma_start_kept(s: Seq<char>, c: char)
    requires
        s.len() > 0 ==> s[0] != c,
    ensures
        text::trim_start_char_of(s, c) == s,
{
    assert(s.skip(0) =~= s);
}

/// A text that begins with another holds every character of it.
pub proof fn lemma_begins_not(s: Seq<char>, prefix: Seq<char>, k: int)
    requires
        0 <= k < prefix.len(),
        !s.contains(prefix[k]),
    ensures
        !text::begins(s, prefix),
        text::after_prefix(s, prefix) is None,
{
    if text::begins(s, prefix) {
        assert(s.subrange(0, prefix.len() as int)[k] == s[k]);
        assert(s.contains(s[k]));
    }
}

/// A text does not begin with another that has a different first character.
pub proof fn lemma_begins_at_not(s: Seq<char>, prefix: Seq<char>)
    requires
        prefix.len() > 0,
        s.len() > 0 ==> s[0] != prefix[0],
    ensures
        !text::begins(s, prefix),
        text::after_prefix(s, prefix) is None,
{
    if text::begins(s, prefix) {
        assert(s.subrange(0, prefix.len() as int)[0] == s[0]);
    }
}

/// What stands behind a prefix is what is left without it.
pub proof fn lemma_prefix_goes(prefix: Seq<char>, s: Seq<char>)
    ensures
        text::begins(prefix + s, prefix),
        text::after_prefix(prefix + s, prefix) == Some(s),
{
    assert((prefix + s).subrange(0, prefix.len() as int) =~= prefix);
    assert((prefix + s).skip(prefix.len() as int) =~= s);
}

/// A number in digits holds no other character.
pub proof fn lemma_digits_hold_no_other(s: Seq<char>, c: char)
    requires
        text::only_digits(s),
        !text::is_digit(c),
    ensures
        !s.contains(c),
{
    if s.contains(c) {
        let k = choose|k: int| 0 <= k < s.len() && s[k] == c;
        assert(text::is_digit(s[k]));
    }
}

} // verus!
