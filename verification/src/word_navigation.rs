//! Words in a line of text, for moving and deleting by word.

use vstd::prelude::*;

use crate::text;

verus! {

/// What a character is to a word.
#[derive(Debug, Clone, Copy, PartialEq, Eq, Structural)]
pub enum WordKind {
    Space,
    Punctuation,
    Word,
}

/// What a character is to a word.
#[verifier::allow_in_spec]
pub fn word_kind(c: char) -> WordKind
    returns
        (if text::is_whitespace(c) {
            WordKind::Space
        } else if '!' <= c && c <= '~' && !text::is_alphanumeric(c) && c != '_' {
            WordKind::Punctuation
        } else {
            WordKind::Word
        }),
{
    if text::is_whitespace(c) {
        WordKind::Space
    } else if '!' <= c && c <= '~' && !text::is_alphanumeric(c) && c != '_' {
        WordKind::Punctuation
    } else {
        WordKind::Word
    }
}

/// Back from `i` over the characters of one kind.
pub open spec fn back_over(s: Seq<char>, kind: WordKind, i: int) -> int
    decreases i,
{
    if 0 < i <= s.len() && word_kind(s[i - 1]) == kind {
        back_over(s, kind, i - 1)
    } else {
        i
    }
}

/// On from `i` over the characters of one kind.
pub open spec fn on_over(s: Seq<char>, kind: WordKind, i: int) -> int
    decreases s.len() - i,
{
    if 0 <= i < s.len() && word_kind(s[i]) == kind {
        on_over(s, kind, i + 1)
    } else {
        i
    }
}

/// Where the word before `i` starts: back over space, then over characters
/// of one kind.
pub open spec fn word_start(s: Seq<char>, i: int) -> int {
    let j = back_over(s, WordKind::Space, i);
    if 0 < j <= s.len() {
        back_over(s, word_kind(s[j - 1]), j)
    } else {
        j
    }
}

/// Where the word after `i` ends: on over space, then over characters of one
/// kind.
pub open spec fn word_end(s: Seq<char>, i: int) -> int {
    let j = on_over(s, WordKind::Space, i);
    if 0 <= j < s.len() {
        on_over(s, word_kind(s[j]), j)
    } else {
        j
    }
}

/// To go back over characters stays in the text.
pub proof fn lemma_back_over(s: Seq<char>, kind: WordKind, i: int)
    requires
        0 <= i <= s.len(),
    ensures
        0 <= back_over(s, kind, i) <= i,
        i > 0 && word_kind(s[i - 1]) == kind ==> back_over(s, kind, i) < i,
    decreases i,
{
    if i > 0 && word_kind(s[i - 1]) == kind {
        lemma_back_over(s, kind, i - 1);
    }
}

/// To go on over characters stays in the text.
pub proof fn lemma_on_over(s: Seq<char>, kind: WordKind, i: int)
    requires
        0 <= i <= s.len(),
    ensures
        i <= on_over(s, kind, i) <= s.len(),
        i < s.len() && word_kind(s[i]) == kind ==> i < on_over(s, kind, i),
    decreases s.len() - i,
{
    if i < s.len() && word_kind(s[i]) == kind {
        lemma_on_over(s, kind, i + 1);
    }
}

/// A word's start lies before the place it was sought from, and its end
/// behind it, unless the text ends there.
pub proof fn lemma_words_move(s: Seq<char>, i: int)
    requires
        0 <= i <= s.len(),
    ensures
        0 <= word_start(s, i) <= i <= word_end(s, i) <= s.len(),
        i > 0 ==> word_start(s, i) < i,
        i < s.len() ==> i < word_end(s, i),
{
    lemma_back_over(s, WordKind::Space, i);
    lemma_on_over(s, WordKind::Space, i);
    let j = back_over(s, WordKind::Space, i);
    if j > 0 {
        lemma_back_over(s, word_kind(s[j - 1]), j);
    }
    let k = on_over(s, WordKind::Space, i);
    if k < s.len() {
        lemma_on_over(s, word_kind(s[k]), k);
    }
}

fn walk_back(chars: &Vec<char>, kind: WordKind, from: usize) -> (r: usize)
    requires
        from <= chars@.len(),
    ensures
        r == back_over(chars@, kind, from as int),
        r <= from,
{
    let mut i: usize = from;
    while i > 0 && word_kind(chars[i - 1]) == kind
        invariant
            i <= from,
            from <= chars@.len(),
            back_over(chars@, kind, from as int) == back_over(chars@, kind, i as int),
        decreases i,
    {
        i -= 1;
    }
    i
}

fn walk_on(chars: &Vec<char>, kind: WordKind, from: usize) -> (r: usize)
    requires
        from <= chars@.len(),
    ensures
        r == on_over(chars@, kind, from as int),
        r <= chars@.len(),
{
    let mut i: usize = from;
    while i < chars.len() && word_kind(chars[i]) == kind
        invariant
            i <= chars@.len(),
            on_over(chars@, kind, from as int) == on_over(chars@, kind, i as int),
        decreases chars.len() - i,
    {
        i += 1;
    }
    i
}

/// Where the word before `cursor` starts.
pub fn find_word_backward(value: &str, cursor: usize) -> (r: usize)
    requires
        cursor <= value@.len(),
    ensures
        r == word_start(value@, cursor as int),
        r <= cursor,
{
    let chars = text::chars_of(value);
    let j = walk_back(&chars, WordKind::Space, cursor);
    if j > 0 {
        walk_back(&chars, word_kind(chars[j - 1]), j)
    } else {
        j
    }
}

/// Where the word after `cursor` ends.
pub fn find_word_forward(value: &str, cursor: usize) -> (r: usize)
    requires
        cursor <= value@.len(),
    ensures
        r == word_end(value@, cursor as int),
        cursor <= r <= value@.len(),
{
    proof {
        lemma_words_move(value@, cursor as int);
    }
    let chars = text::chars_of(value);
    let j = walk_on(&chars, WordKind::Space, cursor);
    if j < chars.len() {
        walk_on(&chars, word_kind(chars[j]), j)
    } else {
        j
    }
}

} // verus!
