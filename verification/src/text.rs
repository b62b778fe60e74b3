//! Text primitives over character sequences.
//!
//! Every function here works on characters, never on bytes, and states its
//! result over the view of its arguments. The rest of the crate composes
//! them.

use vstd::prelude::*;

verus! {

/// Appends one character to a string (`String::push`).
pub assume_specification[ String::push ](s: &mut String, c: char)
    ensures
        final(s)@ == old(s)@.push(c),
;

/// A decimal digit, `0` to `9`.
#[verifier::allow_in_spec]
pub fn is_digit(c: char) -> bool
    returns
        ('0' <= c && c <= '9'),
{
    '0' <= c && c <= '9'
}

/// An ASCII letter.
#[verifier::allow_in_spec]
pub fn is_letter(c: char) -> bool
    returns
        (('a' <= c && c <= 'z') || ('A' <= c && c <= 'Z')),
{
    ('a' <= c && c <= 'z') || ('A' <= c && c <= 'Z')
}

/// An ASCII letter or a decimal digit.
#[verifier::allow_in_spec]
pub fn is_alphanumeric(c: char) -> bool
    returns
        (is_letter(c) || is_digit(c)),
{
    is_letter(c) || is_digit(c)
}

/// A control character: Unicode general category `Cc`.
#[verifier::allow_in_spec]
pub fn is_control(c: char) -> bool
    returns
        (c <= '\u{1f}' || ('\u{7f}' <= c && c <= '\u{9f}')),
{
    c <= '\u{1f}' || ('\u{7f}' <= c && c <= '\u{9f}')
}

/// A character with the Unicode `White_Space` property.
#[verifier::allow_in_spec]
pub fn is_whitespace(c: char) -> bool
    returns
        (('\u{9}' <= c && c <= '\u{d}') || c == ' ' || c == '\u{85}' || c == '\u{a0}' || c
            == '\u{1680}' || ('\u{2000}' <= c && c <= '\u{200a}') || c == '\u{2028}' || c
            == '\u{2029}' || c == '\u{202f}' || c == '\u{205f}' || c == '\u{3000}'),
{
    ('\u{9}' <= c && c <= '\u{d}') || c == ' ' || c == '\u{85}' || c == '\u{a0}' || c == '\u{1680}'
        || ('\u{2000}' <= c && c <= '\u{200a}') || c == '\u{2028}' || c == '\u{2029}' || c
        == '\u{202f}' || c == '\u{205f}' || c == '\u{3000}'
}

/// The characters of a string, in order.
pub fn chars_of(s: &str) -> (out: Vec<char>)
    ensures
        out@ == s@,
{
    let mut out: Vec<char> = Vec::new();
    for c in it: s.chars()
        invariant
            out@.len() == it.index(),
            it.seq() == s@,
            forall|i: int| 0 <= i < out@.len() ==> out@[i] == s@[i],
    {
        out.push(c);
    }
    assert(out@ =~= s@);
    out
}

/// The string made of the characters `from .. to` of `chars`.
pub fn string_of(chars: &[char], from: usize, to: usize) -> (out: String)
    requires
        from <= to <= chars@.len(),
    ensures
        out@ == chars@.subrange(from as int, to as int),
{
    let mut out = String::new();
    let mut i: usize = from;
    while i < to
        invariant
            from <= i <= to <= chars@.len(),
            out@ =~= chars@.subrange(from as int, i as int),
        decreases to - i,
    {
        out.push(chars[i]);
        i += 1;
    }
    out
}

/// `c` with an ASCII capital turned into its small letter.
#[verifier::allow_in_spec]
pub fn lower_char(c: char) -> char
    returns
        (if 'A' <= c && c <= 'Z' {
            ((c as u8 + 32) as u8) as char
        } else {
            c
        }),
{
    if 'A' <= c && c <= 'Z' {
        (c as u8 + 32) as char
    } else {
        c
    }
}

/// The capital of an ASCII letter; any other character as it stands.
#[verifier::allow_in_spec]
pub fn upper_char(c: char) -> char
    returns
        (if 'a' <= c && c <= 'z' {
            ((c as u8 - 32) as u8) as char
        } else {
            c
        }),
{
    if 'a' <= c && c <= 'z' {
        (c as u8 - 32) as char
    } else {
        c
    }
}

/// `s` with every ASCII capital turned into its small letter.
pub open spec fn lower_of(s: Seq<char>) -> Seq<char> {
    Seq::new(s.len(), |i: int| lower_char(s[i]))
}

/// The ASCII-lowercase form of a string.
pub fn lower(s: &str) -> (out: String)
    ensures
        out@ == lower_of(s@),
{
    let chars = chars_of(s);
    let mut out = String::new();
    let mut i: usize = 0;
    while i < chars.len()
        invariant
            i <= chars@.len(),
            chars@ == s@,
            out@ =~= lower_of(s@.take(i as int)),
        decreases chars.len() - i,
    {
        out.push(lower_char(chars[i]));
        i += 1;
    }
    assert(s@.take(i as int) =~= s@);
    out
}

/// Whether two strings hold the same characters.
pub fn same(a: &str, b: &str) -> (r: bool)
    ensures
        r == (a@ == b@),
{
    let x = chars_of(a);
    let y = chars_of(b);
    if x.len() != y.len() {
        return false;
    }
    let mut i: usize = 0;
    while i < x.len()
        invariant
            i <= x@.len(),
            x@.len() == y@.len(),
            x@ == a@,
            y@ == b@,
            forall|j: int| 0 <= j < i ==> x@[j] == y@[j],
        decreases x.len() - i,
    {
        if x[i] != y[i] {
            return false;
        }
        i += 1;
    }
    assert(x@ =~= y@);
    true
}

/// Whether two strings are equal up to the case of ASCII letters.
pub fn same_ignoring_case(a: &str, b: &str) -> (r: bool)
    ensures
        r == (lower_of(a@) == lower_of(b@)),
{
    let x = lower(a);
    let y = lower(b);
    same(x.as_str(), y.as_str())
}

/// `a` followed by `b`.
pub fn cat(a: &str, b: &str) -> (out: String)
    ensures
        out@ == a@ + b@,
{
    let mut out = a.to_owned();
    out.append(b);
    out
}

/// Three strings, one after another.
pub fn cat3(a: &str, b: &str, c: &str) -> (out: String)
    ensures
        out@ == a@ + b@ + c@,
{
    let mut out = cat(a, b);
    out.append(c);
    out
}

/// Four strings, one after another.
pub fn cat4(a: &str, b: &str, c: &str, d: &str) -> (out: String)
    ensures
        out@ == a@ + b@ + c@ + d@,
{
    let mut out = cat3(a, b, c);
    out.append(d);
    out
}

/// Five strings, one after another.
pub fn cat5(a: &str, b: &str, c: &str, d: &str, e: &str) -> (out: String)
    ensures
        out@ == a@ + b@ + c@ + d@ + e@,
{
    let mut out = cat4(a, b, c, d);
    out.append(e);
    out
}

/// The characters `from .. to` of `s`.
pub fn slice<'a>(s: &'a str, from: usize, to: usize) -> (out: &'a str)
    requires
        from <= to <= s@.len(),
    ensures
        out@ == s@.subrange(from as int, to as int),
{
    s.substring_char(from, to)
}

/// `s` without its first `n` characters.
pub fn skip<'a>(s: &'a str, n: usize) -> (out: &'a str)
    requires
        n <= s@.len(),
    ensures
        out@ == s@.skip(n as int),
{
    s.substring_char(n, s.unicode_len())
}

/// The first `n` characters of `s`.
pub fn take<'a>(s: &'a str, n: usize) -> (out: &'a str)
    requires
        n <= s@.len(),
    ensures
        out@ == s@.take(n as int),
{
    s.substring_char(0, n)
}

/// Whether `pattern` stands in `s` at position `i`.
pub open spec fn stands_at(s: Seq<char>, pattern: Seq<char>, i: int) -> bool {
    0 <= i && i + pattern.len() <= s.len() && s.subrange(i, i + pattern.len()) =~= pattern
}

/// The first position at or after `i` where `pattern` stands in `s`.
pub open spec fn index_from(s: Seq<char>, pattern: Seq<char>, i: int) -> Option<int>
    decreases s.len() - i,
{
    if i + pattern.len() > s.len() {
        None
    } else if stands_at(s, pattern, i) {
        Some(i)
    } else {
        index_from(s, pattern, i + 1)
    }
}

/// The first position where `pattern` stands in `s`.
pub open spec fn index_of(s: Seq<char>, pattern: Seq<char>) -> Option<int> {
    index_from(s, pattern, 0)
}

/// The last position at or before `i` where `pattern` stands in `s`.
pub open spec fn last_index_to(s: Seq<char>, pattern: Seq<char>, i: int) -> Option<int>
    decreases i + 1,
{
    if i < 0 {
        None
    } else if stands_at(s, pattern, i) {
        Some(i)
    } else {
        last_index_to(s, pattern, i - 1)
    }
}

/// The last position where `pattern` stands in `s`.
pub open spec fn last_index_of(s: Seq<char>, pattern: Seq<char>) -> Option<int> {
    last_index_to(s, pattern, s.len() - pattern.len())
}

/// A machine position as a mathematical one.
pub open spec fn position(r: Option<usize>) -> Option<int> {
    match r {
        Some(i) => Some(i as int),
        None => None,
    }
}

/// What `index_from` gives is the first match: the pattern stands there and
/// nowhere before; without a match it stands nowhere from `i` on.
pub proof fn lemma_index_from(s: Seq<char>, pattern: Seq<char>, i: int)
    requires
        0 <= i,
    ensures
        match index_from(s, pattern, i) {
            Some(k) => {
                &&& i <= k
                &&& stands_at(s, pattern, k)
                &&& forall|j: int| i <= j < k ==> !#[trigger] stands_at(s, pattern, j)
            },
            None => forall|j: int| i <= j ==> !#[trigger] stands_at(s, pattern, j),
        },
    decreases s.len() - i,
{
    if i + pattern.len() <= s.len() && !stands_at(s, pattern, i) {
        lemma_index_from(s, pattern, i + 1);
    }
}

/// What `last_index_to` gives is the last match: the pattern stands there
/// and nowhere after, up to `i`.
pub proof fn lemma_last_index_to(s: Seq<char>, pattern: Seq<char>, i: int)
    ensures
        match last_index_to(s, pattern, i) {
            Some(k) => {
                &&& 0 <= k <= i
                &&& stands_at(s, pattern, k)
                &&& forall|j: int| k < j <= i ==> !#[trigger] stands_at(s, pattern, j)
            },
            None => forall|j: int| 0 <= j <= i ==> !#[trigger] stands_at(s, pattern, j),
        },
    decreases i + 1,
{
    if i >= 0 && !stands_at(s, pattern, i) {
        lemma_last_index_to(s, pattern, i - 1);
    }
}

/// Whether `pattern` stands in `chars` at `i`.
fn matches_at(chars: &Vec<char>, pattern: &Vec<char>, i: usize) -> (r: bool)
    requires
        i + pattern@.len() <= chars@.len(),
    ensures
        r == stands_at(chars@, pattern@, i as int),
{
    let mut k: usize = 0;
    while k < pattern.len()
        invariant
            k <= pattern@.len(),
            i + pattern@.len() <= chars.len(),
            forall|j: int| 0 <= j < k ==> chars@[i + j] == pattern@[j],
        decreases pattern.len() - k,
    {
        if chars[i + k] != pattern[k] {
            assert(chars@.subrange(i as int, i + pattern@.len())[k as int] != pattern@[k as int]);
            return false;
        }
        k += 1;
    }
    assert(chars@.subrange(i as int, i + pattern@.len()) =~= pattern@);
    true
}

/// The first position, counted in characters, where `pattern` stands in `s`.
pub fn find(s: &str, pattern: &str) -> (r: Option<usize>)
    ensures
        position(r) == index_of(s@, pattern@),
        r matches Some(i) ==> i + pattern@.len() <= s@.len() <= usize::MAX && stands_at(
            s@,
            pattern@,
            i as int,
        ),
{
    let chars = chars_of(s);
    let pat = chars_of(pattern);
    if pat.len() > chars.len() {
        return None;
    }
    let last: usize = chars.len() - pat.len();
    let mut i: usize = 0;
    while i <= last
        invariant
            i <= last + 1,
            last == chars.len() - pat.len(),
            chars.len() == s@.len(),
            chars@ == s@,
            pat@ == pattern@,
            index_of(s@, pattern@) == index_from(s@, pattern@, i as int),
        decreases last + 1 - i,
    {
        if matches_at(&chars, &pat, i) {
            return Some(i);
        }
        if i == last {
            assert(index_from(s@, pattern@, i + 1) is None);
            return None;
        }
        i += 1;
    }
    None
}

/// The last position, counted in characters, where `pattern` stands in `s`.
pub fn rfind(s: &str, pattern: &str) -> (r: Option<usize>)
    ensures
        position(r) == last_index_of(s@, pattern@),
        r matches Some(i) ==> i + pattern@.len() <= s@.len() <= usize::MAX && stands_at(
            s@,
            pattern@,
            i as int,
        ),
{
    let chars = chars_of(s);
    let pat = chars_of(pattern);
    if pat.len() > chars.len() {
        return None;
    }
    let mut i: usize = chars.len() - pat.len();
    loop
        invariant
            i + pat@.len() <= chars.len(),
            chars.len() == s@.len(),
            chars@ == s@,
            pat@ == pattern@,
            last_index_of(s@, pattern@) == last_index_to(s@, pattern@, i as int),
        decreases i,
    {
        if matches_at(&chars, &pat, i) {
            return Some(i);
        }
        if i == 0 {
            assert(last_index_to(s@, pattern@, -1) is None);
            return None;
        }
        i -= 1;
    }
}

/// Whether `pattern` stands somewhere in `s`.
pub open spec fn holds(s: Seq<char>, pattern: Seq<char>) -> bool {
    exists|i: int| #[trigger] stands_at(s, pattern, i)
}

/// Whether `s` contains `pattern`.
pub fn contains(s: &str, pattern: &str) -> (r: bool)
    ensures
        r == holds(s@, pattern@),
{
    let r = find(s, pattern);
    proof {
        lemma_index_from(s@, pattern@, 0);
        if r is None && holds(s@, pattern@) {
            let i = choose|i: int| stands_at(s@, pattern@, i);
            assert(!stands_at(s@, pattern@, i));
        }
    }
    r.is_some()
}

/// Whether `s` contains the character `c`.
pub fn contains_char(s: &str, c: char) -> (r: bool)
    ensures
        r == s@.contains(c),
{
    let chars = chars_of(s);
    let mut i: usize = 0;
    while i < chars.len()
        invariant
            i <= chars@.len(),
            chars@ == s@,
            forall|j: int| 0 <= j < i ==> chars@[j] != c,
        decreases chars.len() - i,
    {
        if chars[i] == c {
            assert(s@[i as int] == c);
            return true;
        }
        i += 1;
    }
    false
}

/// Whether `s` starts with `prefix`.
pub open spec fn begins(s: Seq<char>, prefix: Seq<char>) -> bool {
    stands_at(s, prefix, 0)
}

/// Whether `s` ends with `suffix`.
pub open spec fn ends(s: Seq<char>, suffix: Seq<char>) -> bool {
    stands_at(s, suffix, s.len() - suffix.len())
}

/// Whether `s` starts with `prefix`.
pub fn starts_with(s: &str, prefix: &str) -> (r: bool)
    ensures
        r == begins(s@, prefix@),
{
    let chars = chars_of(s);
    let pat = chars_of(prefix);
    pat.len() <= chars.len() && matches_at(&chars, &pat, 0)
}

/// Whether the first character of `s` is `c`.
pub open spec fn first_is(s: Seq<char>, c: char) -> bool {
    s.len() > 0 && s[0] == c
}

/// Whether the last character of `s` is `c`.
pub open spec fn last_is(s: Seq<char>, c: char) -> bool {
    s.len() > 0 && s.last() == c
}

/// Whether the first character of `s` is `c`.
pub fn starts_with_char(s: &str, c: char) -> (r: bool)
    ensures
        r == first_is(s@, c),
{
    !s.is_empty() && s.get_char(0) == c
}

/// Whether the last character of `s` is `c`.
pub fn ends_with_char(s: &str, c: char) -> (r: bool)
    ensures
        r == last_is(s@, c),
{
    let n = s.unicode_len();
    n > 0 && s.get_char(n - 1) == c
}

/// Whether `s` ends with `suffix`.
pub fn ends_with(s: &str, suffix: &str) -> (r: bool)
    ensures
        r == ends(s@, suffix@),
{
    let chars = chars_of(s);
    let pat = chars_of(suffix);
    pat.len() <= chars.len() && matches_at(&chars, &pat, chars.len() - pat.len())
}

/// What is left of `s` after `prefix`, where `s` starts with it.
pub open spec fn after_prefix(s: Seq<char>, prefix: Seq<char>) -> Option<Seq<char>> {
    if begins(s, prefix) {
        Some(s.skip(prefix.len() as int))
    } else {
        None
    }
}

/// What is left of `s` before `suffix`, where `s` ends with it.
pub open spec fn before_suffix(s: Seq<char>, suffix: Seq<char>) -> Option<Seq<char>> {
    if ends(s, suffix) {
        Some(s.take(s.len() - suffix.len()))
    } else {
        None
    }
}

/// The view of an optional borrowed string.
pub open spec fn opt_str(o: Option<&str>) -> Option<Seq<char>> {
    match o {
        Some(s) => Some(s@),
        None => None,
    }
}

/// The view of an optional string.
pub open spec fn opt_text(o: Option<String>) -> Option<Seq<char>> {
    match o {
        Some(s) => Some(s@),
        None => None,
    }
}

/// `s` after `prefix`, where `s` starts with it.
pub fn strip_prefix<'a>(s: &'a str, prefix: &str) -> (r: Option<&'a str>)
    ensures
        opt_str(r) == after_prefix(s@, prefix@),
{
    if starts_with(s, prefix) {
        Some(skip(s, prefix.unicode_len()))
    } else {
        None
    }
}

/// `s` before `suffix`, where `s` ends with it.
pub fn strip_suffix<'a>(s: &'a str, suffix: &str) -> (r: Option<&'a str>)
    ensures
        opt_str(r) == before_suffix(s@, suffix@),
{
    if ends_with(s, suffix) {
        Some(take(s, s.unicode_len() - suffix.unicode_len()))
    } else {
        None
    }
}

/// `s` cut at the first `separator`, which is left out.
pub open spec fn cut(s: Seq<char>, separator: Seq<char>) -> Option<(Seq<char>, Seq<char>)> {
    match index_of(s, separator) {
        Some(i) => Some((s.take(i), s.skip(i + separator.len()))),
        None => None,
    }
}

/// `s` cut at the last `separator`, which is left out.
pub open spec fn cut_last(s: Seq<char>, separator: Seq<char>) -> Option<(Seq<char>, Seq<char>)> {
    match last_index_of(s, separator) {
        Some(i) => Some((s.take(i), s.skip(i + separator.len()))),
        None => None,
    }
}

/// The view of an optional pair of borrowed strings.
pub open spec fn opt_pair(o: Option<(&str, &str)>) -> Option<(Seq<char>, Seq<char>)> {
    match o {
        Some(p) => Some((p.0@, p.1@)),
        None => None,
    }
}

/// The two parts of `s` around the first `separator`.
pub fn split_once<'a>(s: &'a str, separator: &str) -> (r: Option<(&'a str, &'a str)>)
    ensures
        opt_pair(r) == cut(s@, separator@),
{
    let width = separator.unicode_len();
    match find(s, separator) {
        Some(i) => Some((take(s, i), skip(s, i + width))),
        None => None,
    }
}

/// The two parts of `s` around the last `separator`.
pub fn rsplit_once<'a>(s: &'a str, separator: &str) -> (r: Option<(&'a str, &'a str)>)
    ensures
        opt_pair(r) == cut_last(s@, separator@),
{
    let width = separator.unicode_len();
    match rfind(s, separator) {
        Some(i) => Some((take(s, i), skip(s, i + width))),
        None => None,
    }
}

/// The strings of a list, as character sequences.
pub open spec fn texts(v: Seq<String>) -> Seq<Seq<char>> {
    Seq::new(v.len(), |i: int| v[i]@)
}

/// The strings of a list of borrowed strings, as character sequences.
pub open spec fn strs(v: Seq<&str>) -> Seq<Seq<char>> {
    Seq::new(v.len(), |i: int| v[i]@)
}

/// The pieces of `s` between the occurrences of `separator`, empty ones
/// among them.
pub open spec fn pieces(s: Seq<char>, separator: Seq<char>) -> Seq<Seq<char>>
    decreases s.len(),
{
    match index_of(s, separator) {
        Some(i) => if 0 <= i && separator.len() > 0 && i + separator.len() <= s.len() {
            seq![s.take(i)] + pieces(s.skip(i + separator.len()), separator)
        } else {
            seq![s]
        },
        None => seq![s],
    }
}

/// The pieces of `s` between the occurrences of `separator`.
pub fn split<'a>(s: &'a str, separator: &str) -> (out: Vec<&'a str>)
    requires
        separator@.len() > 0,
    ensures
        strs(out@) == pieces(s@, separator@),
        out@.len() > 0,
{
    let mut out: Vec<&'a str> = Vec::new();
    let mut rest: &'a str = s;
    let width = separator.unicode_len();
    loop
        invariant
            width == separator@.len(),
            width > 0,
            pieces(s@, separator@) == strs(out@) + pieces(rest@, separator@),
        decreases rest@.len(),
    {
        let found = find(rest, separator);
        match found {
            Some(i) => {
                let ghost before = strs(out@);
                let piece = take(rest, i);
                out.push(piece);
                let next = skip(rest, i + width);
                proof {
                    assert(strs(out@) =~= before.push(piece@));
                    assert(before + (seq![piece@] + pieces(next@, separator@)) =~= strs(out@)
                        + pieces(next@, separator@));
                }
                rest = next;
            },
            None => {
                let ghost before = strs(out@);
                out.push(rest);
                assert(strs(out@) =~= before + seq![rest@]);
                return out;
            },
        }
    }
}

/// The first position at or after `i` whose character is not `c`.
pub open spec fn past_char(s: Seq<char>, c: char, i: int) -> int
    decreases s.len() - i,
{
    if 0 <= i < s.len() && s[i] == c {
        past_char(s, c, i + 1)
    } else {
        i
    }
}

/// The first position at or after `i` whose character is not white space.
pub open spec fn past_space(s: Seq<char>, i: int) -> int
    decreases s.len() - i,
{
    if 0 <= i < s.len() && is_whitespace(s[i]) {
        past_space(s, i + 1)
    } else {
        i
    }
}

/// The last position at or before `i` with no `c` just in front of it.
pub open spec fn back_over_char(s: Seq<char>, c: char, i: int) -> int
    decreases i,
{
    if 0 < i <= s.len() && s[i - 1] == c {
        back_over_char(s, c, i - 1)
    } else {
        i
    }
}

/// The last position at or before `i` with no white space just in front of
/// it.
pub open spec fn back_over_space(s: Seq<char>, i: int) -> int
    decreases i,
{
    if 0 < i <= s.len() && is_whitespace(s[i - 1]) {
        back_over_space(s, i - 1)
    } else {
        i
    }
}

/// `s` without the white space at its start.
pub open spec fn trim_start_of(s: Seq<char>) -> Seq<char> {
    s.skip(past_space(s, 0))
}

/// `s` without the white space at its end.
pub open spec fn trim_end_of(s: Seq<char>) -> Seq<char> {
    s.take(back_over_space(s, s.len() as int))
}

/// `s` without the white space at either end.
pub open spec fn trim_of(s: Seq<char>) -> Seq<char> {
    trim_end_of(trim_start_of(s))
}

proof fn lemma_past_space(s: Seq<char>, i: int)
    requires
        0 <= i <= s.len(),
    ensures
        i <= past_space(s, i) <= s.len(),
        forall|j: int| i <= j < past_space(s, i) ==> is_whitespace(#[trigger] s[j]),
        past_space(s, i) < s.len() ==> !is_whitespace(s[past_space(s, i)]),
    decreases s.len() - i,
{
    if i < s.len() && is_whitespace(s[i]) {
        lemma_past_space(s, i + 1);
    }
}

proof fn lemma_back_over_space(s: Seq<char>, i: int)
    requires
        0 <= i <= s.len(),
    ensures
        0 <= back_over_space(s, i) <= i,
        forall|j: int| back_over_space(s, i) <= j < i ==> is_whitespace(#[trigger] s[j]),
        back_over_space(s, i) > 0 ==> !is_whitespace(s[back_over_space(s, i) - 1]),
    decreases i,
{
    if i > 0 && is_whitespace(s[i - 1]) {
        lemma_back_over_space(s, i - 1);
    }
}

/// Whether the characters of `s` from `a` to `b` are what is left of it
/// without the white space at either end.
pub open spec fn is_core(s: Seq<char>, a: int, b: int) -> bool {
    &&& 0 <= a <= b <= s.len()
    &&& forall|i: int| 0 <= i < a ==> is_whitespace(#[trigger] s[i])
    &&& forall|i: int| b <= i < s.len() ==> is_whitespace(#[trigger] s[i])
    &&& a < b ==> !is_whitespace(s[a]) && !is_whitespace(s[b - 1])
}

/// What `trim_of` keeps is a core of the text.
pub proof fn lemma_trim_core(s: Seq<char>) -> (r: (int, int))
    ensures
        is_core(s, r.0, r.1),
        trim_of(s) == s.subrange(r.0, r.1),
{
    lemma_past_space(s, 0);
    let a = past_space(s, 0);
    let rest = s.skip(a);
    lemma_back_over_space(rest, rest.len() as int);
    let n = back_over_space(rest, rest.len() as int);
    assert forall|i: int| a + n <= i < s.len() implies is_whitespace(#[trigger] s[i]) by {
        assert(rest[i - a] == s[i]);
    }
    if n > 0 {
        assert(rest[n - 1] == s[a + n - 1]);
    }
    assert(rest.take(n) =~= s.subrange(a, a + n));
    (a, a + n)
}

/// A text has one core: whatever is one is what `trim_of` keeps.
pub proof fn lemma_trim_is(s: Seq<char>, a: int, b: int)
    requires
        is_core(s, a, b),
    ensures
        trim_of(s) == s.subrange(a, b),
{
    let (c, d) = lemma_trim_core(s);
    if a < b {
        assert(!is_whitespace(s[a]));
        assert(c < d) by {
            if c == d {
                if a < c {
                    assert(is_whitespace(s[a]));
                } else {
                    assert(is_whitespace(s[a]));
                }
            }
        }
        assert(!is_whitespace(s[c]));
        assert(a == c);
        assert(!is_whitespace(s[b - 1]));
        assert(!is_whitespace(s[d - 1]));
        assert(b == d);
    } else {
        if c < d {
            assert(!is_whitespace(s[c]));
            if c < a {
                assert(is_whitespace(s[c]));
            } else {
                assert(is_whitespace(s[c]));
            }
        }
        assert(s.subrange(a, b) =~= s.subrange(c, d));
    }
}

/// To trim twice is to trim once.
pub proof fn lemma_trim_twice(s: Seq<char>)
    ensures
        trim_of(trim_of(s)) == trim_of(s),
{
    let (a, b) = lemma_trim_core(s);
    let t = trim_of(s);
    if a < b {
        assert(t[0] == s[a]);
        assert(t[b - a - 1] == s[b - 1]);
    }
    lemma_trim_is(t, 0, b - a);
    assert(t.subrange(0, b - a) =~= t);
}

/// `s` without the copies of `c` at its start.
pub open spec fn trim_start_char_of(s: Seq<char>, c: char) -> Seq<char> {
    s.skip(past_char(s, c, 0))
}

/// `s` without the copies of `c` at its end.
pub open spec fn trim_end_char_of(s: Seq<char>, c: char) -> Seq<char> {
    s.take(back_over_char(s, c, s.len() as int))
}

/// `s` without the white space at its start.
pub fn trim_start<'a>(s: &'a str) -> (out: &'a str)
    ensures
        out@ == trim_start_of(s@),
{
    let chars = chars_of(s);
    let mut i: usize = 0;
    while i < chars.len() && is_whitespace(chars[i])
        invariant
            i <= chars@.len(),
            chars@ == s@,
            past_space(s@, 0) == past_space(s@, i as int),
        decreases chars.len() - i,
    {
        i += 1;
    }
    skip(s, i)
}

/// `s` without the white space at its end.
pub fn trim_end<'a>(s: &'a str) -> (out: &'a str)
    ensures
        out@ == trim_end_of(s@),
{
    let chars = chars_of(s);
    let mut i: usize = chars.len();
    while i > 0 && is_whitespace(chars[i - 1])
        invariant
            i <= chars@.len(),
            chars@ == s@,
            back_over_space(s@, s@.len() as int) == back_over_space(s@, i as int),
        decreases i,
    {
        i -= 1;
    }
    take(s, i)
}

/// `s` without the white space at either end.
pub fn trim<'a>(s: &'a str) -> (out: &'a str)
    ensures
        out@ == trim_of(s@),
{
    trim_end(trim_start(s))
}

/// `s` without the copies of `c` at its start.
pub fn trim_start_char<'a>(s: &'a str, c: char) -> (out: &'a str)
    ensures
        out@ == trim_start_char_of(s@, c),
{
    let chars = chars_of(s);
    let mut i: usize = 0;
    while i < chars.len() && chars[i] == c
        invariant
            i <= chars@.len(),
            chars@ == s@,
            past_char(s@, c, 0) == past_char(s@, c, i as int),
        decreases chars.len() - i,
    {
        i += 1;
    }
    skip(s, i)
}

/// `s` without the copies of `c` at its end.
pub fn trim_end_char<'a>(s: &'a str, c: char) -> (out: &'a str)
    ensures
        out@ == trim_end_char_of(s@, c),
{
    let chars = chars_of(s);
    let mut i: usize = chars.len();
    while i > 0 && chars[i - 1] == c
        invariant
            i <= chars@.len(),
            chars@ == s@,
            back_over_char(s@, c, s@.len() as int) == back_over_char(s@, c, i as int),
        decreases i,
    {
        i -= 1;
    }
    take(s, i)
}

/// `s` with every `from`, found from the left, replaced by `to`.
pub open spec fn replaced(s: Seq<char>, from: Seq<char>, to: Seq<char>) -> Seq<char>
    decreases s.len(),
{
    match index_of(s, from) {
        Some(i) => if 0 <= i && from.len() > 0 && i + from.len() <= s.len() {
            s.take(i) + to + replaced(s.skip(i + from.len()), from, to)
        } else {
            s
        },
        None => s,
    }
}

/// `s` with every `from` replaced by `to`.
pub fn replace(s: &str, from: &str, to: &str) -> (out: String)
    requires
        from@.len() > 0,
    ensures
        out@ == replaced(s@, from@, to@),
{
    let mut out = String::new();
    let mut rest: &str = s;
    let width = from.unicode_len();
    loop
        invariant
            width == from@.len(),
            width > 0,
            replaced(s@, from@, to@) == out@ + replaced(rest@, from@, to@),
        decreases rest@.len(),
    {
        let found = find(rest, from);
        match found {
            Some(i) => {
                let ghost before = out@;
                let piece = take(rest, i);
                out.append(piece);
                out.append(to);
                let next = skip(rest, i + width);
                assert(before + (piece@ + to@ + replaced(next@, from@, to@)) =~= out@ + replaced(
                    next@,
                    from@,
                    to@,
                ));
                rest = next;
            },
            None => {
                out.append(rest);
                return out;
            },
        }
    }
}

/// One line without the carriage return at its end.
pub open spec fn without_return(s: Seq<char>) -> Seq<char> {
    if last_is(s, '\r') {
        s.drop_last()
    } else {
        s
    }
}

/// The lines of `s`: what each `\n` ends, without a `\r` in front of it, and
/// what follows the last `\n` where that is not empty.
pub open spec fn lines_of(s: Seq<char>) -> Seq<Seq<char>>
    decreases s.len(),
{
    match index_of(s, "\n"@) {
        Some(i) => if 0 <= i < s.len() {
            seq![without_return(s.take(i))] + lines_of(s.skip(i + 1))
        } else {
            seq![]
        },
        None => if s.len() == 0 {
            seq![]
        } else {
            seq![s]
        },
    }
}

/// The lines of `s`.
pub fn lines<'a>(s: &'a str) -> (out: Vec<&'a str>)
    ensures
        strs(out@) == lines_of(s@),
{
    proof {
        reveal_strlit("\n");
    }
    let mut out: Vec<&'a str> = Vec::new();
    let mut rest: &'a str = s;
    loop
        invariant
            "\n"@.len() == 1,
            lines_of(s@) == strs(out@) + lines_of(rest@),
        decreases rest@.len(),
    {
        let found = find(rest, "\n");
        let ghost before = strs(out@);
        match found {
            Some(i) => {
                let mut line = take(rest, i);
                if i > 0 && ends_with_char(line, '\r') {
                    line = take(line, i - 1);
                }
                assert(line@ =~= without_return(rest@.take(i as int)));
                out.push(line);
                let next = skip(rest, i + 1);
                proof {
                    assert(strs(out@) =~= before.push(line@));
                    assert(before + (seq![line@] + lines_of(next@)) =~= strs(out@) + lines_of(
                        next@,
                    ));
                }
                rest = next;
            },
            None => {
                if !rest.is_empty() {
                    out.push(rest);
                    assert(strs(out@) =~= before + seq![rest@]);
                } else {
                    assert(strs(out@) =~= before + lines_of(rest@));
                }
                return out;
            },
        }
    }
}

/// The parts one after another with `separator` between them.
pub open spec fn joined(parts: Seq<Seq<char>>, separator: Seq<char>) -> Seq<char>
    decreases parts.len(),
{
    if parts.len() == 0 {
        seq![]
    } else if parts.len() == 1 {
        parts[0]
    } else {
        joined(parts.drop_last(), separator) + separator + parts.last()
    }
}

/// The strings of `parts` with `separator` between them.
pub fn join(parts: &[String], separator: &str) -> (out: String)
    ensures
        out@ == joined(texts(parts@), separator@),
{
    let mut out = String::new();
    let mut i: usize = 0;
    while i < parts.len()
        invariant
            i <= parts@.len(),
            out@ == joined(texts(parts@).take(i as int), separator@),
        decreases parts.len() - i,
    {
        if i > 0 {
            out.append(separator);
        }
        out.append(parts[i].as_str());
        proof {
            let next = texts(parts@).take(i + 1);
            assert(next.drop_last() =~= texts(parts@).take(i as int));
            assert(seq![] + parts@[i as int]@ =~= parts@[i as int]@);
        }
        i += 1;
    }
    assert(texts(parts@).take(i as int) =~= texts(parts@));
    out
}

/// A copy of a list of strings.
pub fn clone_all(v: &[String]) -> (out: Vec<String>)
    ensures
        texts(out@) == texts(v@),
        out@ == v@,
{
    let mut out: Vec<String> = Vec::new();
    let mut i: usize = 0;
    while i < v.len()
        invariant
            i <= v@.len(),
            out@ =~= v@.take(i as int),
        decreases v.len() - i,
    {
        out.push(v[i].clone());
        i += 1;
    }
    assert(out@ =~= v@);
    out
}

/// Whether `s` is one of the strings of `list`.
pub fn listed(list: &[String], s: &str) -> (r: bool)
    ensures
        r == texts(list@).contains(s@),
{
    let mut i: usize = 0;
    while i < list.len()
        invariant
            i <= list@.len(),
            forall|j: int| 0 <= j < i ==> texts(list@)[j] != s@,
        decreases list.len() - i,
    {
        if same(list[i].as_str(), s) {
            assert(texts(list@)[i as int] == s@);
            return true;
        }
        i += 1;
    }
    assert(!texts(list@).contains(s@));
    false
}

/// The value of `c` as a digit in base sixteen.
#[verifier::allow_in_spec]
pub fn hex_value(c: char) -> Option<u32>
    returns
        (if '0' <= c && c <= '9' {
            Some((c as u32 - '0' as u32) as u32)
        } else if 'a' <= c && c <= 'f' {
            Some((c as u32 - 'a' as u32 + 10) as u32)
        } else if 'A' <= c && c <= 'F' {
            Some((c as u32 - 'A' as u32 + 10) as u32)
        } else {
            None
        }),
{
    if '0' <= c && c <= '9' {
        Some(c as u32 - '0' as u32)
    } else if 'a' <= c && c <= 'f' {
        Some(c as u32 - 'a' as u32 + 10)
    } else if 'A' <= c && c <= 'F' {
        Some(c as u32 - 'A' as u32 + 10)
    } else {
        None
    }
}

/// The number that the decimal digits of `s` stand for.
pub open spec fn decimal(s: Seq<char>) -> nat
    decreases s.len(),
{
    if s.len() == 0 {
        0
    } else {
        (decimal(s.drop_last()) * 10 + (s.last() as int - '0' as int)) as nat
    }
}

/// Whether `s` is one or more decimal digits.
pub open spec fn all_digits(s: Seq<char>) -> bool {
    s.len() > 0 && forall|i: int| 0 <= i < s.len() ==> is_digit(#[trigger] s[i])
}

/// What the digits of `s` stand for after one optional `+`, where that is at
/// most `max`.
pub open spec fn number_of(s: Seq<char>, max: nat) -> Option<nat> {
    let digits = if first_is(s, '+') {
        s.skip(1)
    } else {
        s
    };
    if all_digits(digits) && decimal(digits) <= max {
        Some(decimal(digits))
    } else {
        None
    }
}

/// The view of an optional machine number.
pub open spec fn opt_nat(o: Option<u64>) -> Option<nat> {
    match o {
        Some(n) => Some(n as nat),
        None => None,
    }
}

/// The number that `s` spells in decimal, where it is at most `max`.
pub fn parse_number(s: &str, max: u64) -> (r: Option<u64>)
    ensures
        opt_nat(r) == number_of(s@, max as nat),
{
    let body = if starts_with_char(s, '+') {
        skip(s, 1)
    } else {
        s
    };
    let digits = chars_of(body);
    if digits.len() == 0 {
        return None;
    }
    let mut value: u64 = 0;
    let mut i: usize = 0;
    let mut fits = true;
    while i < digits.len()
        invariant
            i <= digits@.len(),
            digits@ == body@,
            body@ == (if first_is(s@, '+') {
                s@.skip(1)
            } else {
                s@
            }),
            forall|j: int| 0 <= j < i ==> is_digit(#[trigger] digits@[j]),
            fits ==> value == decimal(digits@.take(i as int)) && value <= max,
            !fits ==> decimal(digits@.take(i as int)) > max,
        decreases digits.len() - i,
    {
        let c = digits[i];
        if !is_digit(c) {
            assert(!is_digit(body@[i as int]));
            return None;
        }
        let d: u64 = c as u64 - '0' as u64;
        proof {
            assert(digits@.take(i + 1).drop_last() =~= digits@.take(i as int));
            assert(decimal(digits@.take(i + 1)) == decimal(digits@.take(i as int)) * 10 + d);
        }
        if fits {
            let wide: u128 = value as u128 * 10 + d as u128;
            if wide > max as u128 {
                fits = false;
            } else {
                value = wide as u64;
            }
        }
        i += 1;
    }
    assert(digits@.take(i as int) =~= digits@);
    if fits {
        Some(value)
    } else {
        None
    }
}

/// Whether the test `f`, which computes `p`, holds of some character of `s`.
pub fn any_char<F: Fn(char) -> bool>(s: &str, f: F, Ghost(p): Ghost<spec_fn(char) -> bool>) -> (r:
    bool)
    requires
        forall|c: char| call_requires(f, (c,)),
        forall|c: char, b: bool| call_ensures(f, (c,), b) ==> b == p(c),
    ensures
        r == exists|i: int| 0 <= i < s@.len() && p(#[trigger] s@[i]),
{
    let chars = chars_of(s);
    let mut i: usize = 0;
    while i < chars.len()
        invariant
            i <= chars@.len(),
            chars@ == s@,
            forall|c: char| call_requires(f, (c,)),
            forall|c: char, b: bool| call_ensures(f, (c,), b) ==> b == p(c),
            forall|j: int| 0 <= j < i ==> !p(#[trigger] s@[j]),
        decreases chars.len() - i,
    {
        if f(chars[i]) {
            assert(p(s@[i as int]));
            return true;
        }
        i += 1;
    }
    false
}

/// Whether `s` holds a control character.
pub open spec fn some_control(s: Seq<char>) -> bool {
    exists|i: int| 0 <= i < s.len() && is_control(#[trigger] s[i])
}

/// Whether `s` holds a control character.
pub fn has_control(s: &str) -> (r: bool)
    ensures
        r == some_control(s@),
{
    any_char(s, is_control, Ghost(|c: char| is_control(c)))
}

/// Whether every character of `s` is a decimal digit.
pub open spec fn only_digits(s: Seq<char>) -> bool {
    forall|i: int| 0 <= i < s.len() ==> is_digit(#[trigger] s[i])
}

/// A character other than a decimal digit.
#[verifier::allow_in_spec]
pub fn not_digit(c: char) -> bool
    returns
        (!is_digit(c)),
{
    !is_digit(c)
}

/// Whether every character of `s` is a decimal digit.
pub fn digits_only(s: &str) -> (r: bool)
    ensures
        r == only_digits(s@),
{
    !any_char(s, not_digit, Ghost(|c: char| not_digit(c)))
}

/// The first position at or after `i` that holds white space, or the end.
pub open spec fn past_word(s: Seq<char>, i: int) -> int
    decreases s.len() - i,
{
    if 0 <= i < s.len() && !is_whitespace(s[i]) {
        past_word(s, i + 1)
    } else {
        i
    }
}

/// `past_word` and `past_space` stay within the text.
pub proof fn lemma_past(s: Seq<char>, i: int)
    requires
        0 <= i <= s.len(),
    ensures
        i <= past_word(s, i) <= s.len(),
        i <= past_space(s, i) <= s.len(),
    decreases s.len() - i,
{
    if i < s.len() {
        lemma_past(s, i + 1);
    }
}

/// The maximal runs of `s` without white space.
pub open spec fn words_of(s: Seq<char>) -> Seq<Seq<char>>
    decreases s.len(),
{
    let t = trim_start_of(s);
    let end = past_word(t, 0);
    if t.len() == 0 || t.len() > s.len() || end <= 0 || end > t.len() {
        seq![]
    } else {
        seq![t.take(end)] + words_of(t.skip(end))
    }
}

/// The words of `s`: its maximal runs without white space.
pub fn words<'a>(s: &'a str) -> (out: Vec<&'a str>)
    ensures
        strs(out@) == words_of(s@),
{
    let mut out: Vec<&'a str> = Vec::new();
    let mut rest: &'a str = s;
    loop
        invariant
            words_of(s@) == strs(out@) + words_of(rest@),
        decreases rest@.len(),
    {
        let t = trim_start(rest);
        proof {
            lemma_past(rest@, 0);
        }
        let chars = chars_of(t);
        if chars.len() == 0 {
            assert(strs(out@) =~= words_of(s@));
            return out;
        }
        let mut end: usize = 0;
        while end < chars.len() && !is_whitespace(chars[end])
            invariant
                end <= chars@.len(),
                chars@ == t@,
                past_word(t@, 0) == past_word(t@, end as int),
            decreases chars.len() - end,
        {
            end += 1;
        }
        proof {
            if past_space(rest@, 0) < rest@.len() {
                lemma_past_space_stops(rest@, 0);
            }
        }
        let ghost before = strs(out@);
        let word = take(t, end);
        out.push(word);
        let next = skip(t, end);
        proof {
            assert(strs(out@) =~= before.push(word@));
            assert(before + (seq![word@] + words_of(next@)) =~= strs(out@) + words_of(next@));
        }
        rest = next;
    }
}

/// Where `past_space` stops short of the end, no white space stands.
pub proof fn lemma_past_space_stops(s: Seq<char>, i: int)
    requires
        0 <= i <= s.len(),
        past_space(s, i) < s.len(),
    ensures
        !is_whitespace(s[past_space(s, i)]),
    decreases s.len() - i,
{
    if i < s.len() && is_whitespace(s[i]) {
        lemma_past_space_stops(s, i + 1);
    }
}

/// The string whose UTF-8 bytes are `bytes` (`String::from_utf8`): present
/// exactly where they are valid UTF-8.
#[verifier::external_body]
pub(crate) fn string_from_utf8(bytes: Vec<u8>) -> (r: Option<String>)
    ensures
        r is Some <==> vstd::utf8::valid_utf8(bytes@),
        r matches Some(s) ==> s@ == vstd::utf8::decode_utf8(bytes@),
{
    String::from_utf8(bytes).ok()
}

/// Appends a copy of `s` to a list of strings.
pub fn push_text(v: &mut Vec<String>, s: &str)
    ensures
        texts(final(v)@) == texts(old(v)@).push(s@),
{
    v.push(s.to_owned());
    assert(texts(v@) =~= texts(old(v)@).push(s@));
}

/// Appends copies of the strings of `more` to a list of strings.
pub fn push_texts(v: &mut Vec<String>, more: &[String])
    ensures
        texts(final(v)@) == texts(old(v)@) + texts(more@),
{
    let mut i: usize = 0;
    while i < more.len()
        invariant
            i <= more@.len(),
            texts(v@) == texts(old(v)@) + texts(more@).take(i as int),
        decreases more.len() - i,
    {
        push_text(v, more[i].as_str());
        assert(texts(more@).take(i + 1) =~= texts(more@).take(i as int).push(more@[i as int]@));
        assert(texts(v@) =~= texts(old(v)@) + texts(more@).take(i + 1));
        i += 1;
    }
    assert(texts(more@).take(i as int) =~= texts(more@));
}

/// How many bytes `c` takes in UTF-8.
#[verifier::allow_in_spec]
pub fn char_width(c: char) -> usize
    returns
        (if c <= '\u{7f}' {
            1usize
        } else if c <= '\u{7ff}' {
            2usize
        } else if c <= '\u{ffff}' {
            3usize
        } else {
            4usize
        }),
{
    if c <= '\u{7f}' {
        1
    } else if c <= '\u{7ff}' {
        2
    } else if c <= '\u{ffff}' {
        3
    } else {
        4
    }
}

/// How many bytes `s` takes in UTF-8.
pub open spec fn width_of(s: Seq<char>) -> nat
    decreases s.len(),
{
    if s.len() == 0 {
        0
    } else {
        width_of(s.drop_last()) + char_width(s.last()) as nat
    }
}

/// The most characters, from `k` on, whose bytes fit in `max`.
pub open spec fn fitting(s: Seq<char>, max: nat, k: int) -> int
    decreases s.len() - k,
{
    if 0 <= k < s.len() && width_of(s.take(k + 1)) <= max {
        fitting(s, max, k + 1)
    } else {
        k
    }
}

/// `s` where it takes at most `max` bytes; else as many characters of it as
/// fit in `max` bytes, and three dots.
pub open spec fn truncated(s: Seq<char>, max: nat) -> Seq<char> {
    if width_of(s) <= max {
        s
    } else {
        s.take(fitting(s, max, 0)) + "..."@
    }
}

/// A longer prefix takes no fewer bytes.
pub proof fn lemma_width_grows(s: Seq<char>, i: int, j: int)
    requires
        0 <= i <= j <= s.len(),
    ensures
        width_of(s.take(i)) <= width_of(s.take(j)),
        i < j ==> width_of(s.take(i)) < width_of(s.take(j)),
    decreases j - i,
{
    if i < j {
        lemma_width_grows(s, i, j - 1);
        assert(s.take(j).drop_last() =~= s.take(j - 1));
    }
}

/// `s` cut to at most `max` bytes, with three dots where something is cut.
pub fn truncate(s: &str, max: usize) -> (out: String)
    ensures
        out@ == truncated(s@, max as nat),
{
    let chars = chars_of(s);
    let mut used: usize = 0;
    let mut i: usize = 0;
    while i < chars.len()
        invariant
            i <= chars@.len(),
            chars@ == s@,
            used == width_of(s@.take(i as int)),
            used <= max,
            fitting(s@, max as nat, 0) == fitting(s@, max as nat, i as int),
        decreases chars.len() - i,
    {
        let w = char_width(chars[i]);
        assert(s@.take(i + 1).drop_last() =~= s@.take(i as int));
        if w > max - used {
            proof {
                lemma_width_grows(s@, i + 1, s@.len() as int);
                assert(s@.take(s@.len() as int) =~= s@);
            }
            return cat(take(s, i), "...");
        }
        used += w;
        i += 1;
    }
    assert(s@.take(i as int) =~= s@);
    s.to_owned()
}

/// What `truncate` keeps never takes more than `max` bytes.
pub proof fn lemma_truncated_fits(s: Seq<char>, max: nat, k: int)
    requires
        0 <= k <= s.len(),
        width_of(s.take(k)) <= max,
    ensures
        k <= fitting(s, max, k) <= s.len(),
        width_of(s.take(fitting(s, max, k))) <= max,
    decreases s.len() - k,
{
    if k < s.len() && width_of(s.take(k + 1)) <= max {
        lemma_truncated_fits(s, max, k + 1);
    }
}

/// The decimal digits of `n`.
pub open spec fn digits_of(n: nat) -> Seq<char>
    decreases n,
{
    let last = ('0' as u32 + n % 10) as char;
    if n < 10 {
        seq![last]
    } else {
        digits_of(n / 10).push(last)
    }
}

/// A number in decimal.
pub fn number_text(n: u64) -> (out: String)
    ensures
        out@ == digits_of(n as nat),
    decreases n,
{
    let d: u8 = (n % 10) as u8;
    let last: char = (48 + d) as char;
    if n < 10 {
        let mut out = String::new();
        out.push(last);
        assert(out@ =~= seq![last]);
        out
    } else {
        let mut out = number_text(n / 10);
        out.push(last);
        out
    }
}

} // verus!
