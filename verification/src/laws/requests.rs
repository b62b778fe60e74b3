//! How a request is read that holds more than one range.

use vstd::prelude::*;

use crate::laws::texts;
use crate::laws::versions;
use crate::text;
use crate::version;
use crate::version::{Order, VersionModel};

verus! {

/// What an installed version means for a request.
#[verifier::opaque]
pub open spec fn verdict(installed: Option<Seq<char>>, requested: Seq<char>) -> Option<bool> {
    version::npm_verdict(installed, requested)
}

/// What an installed version means for one range.
#[verifier::opaque]
pub open spec fn range(installed: Option<VersionModel>, requested: Seq<char>) -> Option<bool> {
    version::range_verdict(installed, requested)
}

/// What an installed version means for several ranges.
#[verifier::opaque]
pub open spec fn ranges(installed: Option<VersionModel>, requested: Seq<Seq<char>>) -> Option<
    bool,
> {
    version::any_verdict(installed, requested)
}

/// Whether `s` holds no `|` and no blank at its ends.
pub open spec fn single_range(s: Seq<char>) -> bool {
    &&& s.len() > 0
    &&& !text::is_whitespace(s[0])
    &&& !text::is_whitespace(s.last())
    &&& !s.contains('|')
}

proof fn lemma_one_range(installed: Option<Seq<char>>, s: Seq<char>)
    requires
        single_range(s),
    ensures
        verdict(installed, s) == range(version::installed_version(installed), s),
{
    reveal_strlit("||");
    texts::lemma_trimmed(s);
    texts::lemma_undivided(s, "||"@);
    let v = version::installed_version(installed);
    lemma_ranges(installed, s, seq![s]);
    lemma_alone(v, s);
}

proof fn lemma_alone(v: Option<VersionModel>, s: Seq<char>)
    ensures
        ranges(v, seq![s]) == range(v, text::trim_of(s)),
{
    reveal(range);
    reveal(ranges);
    assert(seq![s][0] == s);
}

proof fn lemma_two_ranges(a: Seq<char>, before: Seq<char>, after: Seq<char>, b: Seq<char>)
    requires
        single_range(a),
        single_range(b),
        forall|i: int| 0 <= i < before.len() ==> #[trigger] before[i] == ' ',
        forall|i: int| 0 <= i < after.len() ==> #[trigger] after[i] == ' ',
    ensures
        text::pieces(
            text::trim_of(a + before + seq!['|', '|'] + (after + b)),
            "||"@,
        ) == seq![a + before, after + b],
{
    reveal_strlit("||");
    assert("||"@ =~= seq!['|', '|']);
    let left = a + before;
    let right = after + b;
    let s = left + seq!['|', '|'] + right;
    assert(s[0] == a[0] && s.last() == b.last());
    texts::lemma_trimmed(s);
    assert(!left.contains('|')) by {
        if left.contains('|') {
            let k = choose|k: int| 0 <= k < left.len() && left[k] == '|';
            if k < a.len() {
                assert(a[k] == '|');
            } else {
                assert(before[k - a.len()] == '|');
            }
        }
    }
    assert(!right.contains('|')) by {
        if right.contains('|') {
            let k = choose|k: int| 0 <= k < right.len() && right[k] == '|';
            if k < after.len() {
                assert(after[k] == '|');
            } else {
                assert(b[k - after.len()] == '|');
            }
        }
    }
    texts::lemma_divided(left, "||"@, right);
    texts::lemma_undivided(right, "||"@);
    assert(seq![left] + seq![right] =~= seq![left, right]);
}

proof fn lemma_either(v: Option<VersionModel>, left: Seq<char>, right: Seq<char>)
    ensures
        ({
            let first = range(v, text::trim_of(left));
            let second = range(v, text::trim_of(right));
            let both = ranges(v, seq![left, right]);
            &&& both == Some(true) <==> (first == Some(true) || second == Some(true))
            &&& both == Some(false) <==> (first != Some(true) && second != Some(true) && (first
                == Some(false) || second == Some(false)))
        }),
{
    reveal(range);
    reveal(ranges);
    let both = seq![left, right];
    assert(both[0] == left && both[1] == right);
    assert forall|i: int| 0 <= i < both.len() implies #[trigger] both[i] == left || both[i]
        == right by {
        assert(i == 0 || i == 1);
    }
}

proof fn lemma_blanks_go(a: Seq<char>, before: Seq<char>, after: Seq<char>, b: Seq<char>)
    requires
        single_range(a),
        single_range(b),
        forall|i: int| 0 <= i < before.len() ==> #[trigger] before[i] == ' ',
        forall|i: int| 0 <= i < after.len() ==> #[trigger] after[i] == ' ',
    ensures
        text::trim_of(a + before) == a,
        text::trim_of(after + b) == b,
{
    let none: Seq<char> = seq![];
    texts::lemma_trim_takes_space(none, a, before);
    assert(none + a + before =~= a + before);
    texts::lemma_trim_takes_space(after, b, none);
    assert(after + b + none =~= after + b);
}

proof fn lemma_ranges(installed: Option<Seq<char>>, s: Seq<char>, found: Seq<Seq<char>>)
    requires
        text::pieces(text::trim_of(s), "||"@) == found,
    ensures
        verdict(installed, s) == ranges(version::installed_version(installed), found),
{
    reveal(verdict);
    reveal(ranges);
}

/// A request with two ranges and `||` between them is met where one of the two
/// is, and refused where neither is met and one is refused.
pub proof fn lemma_alternatives(
    installed: Option<Seq<char>>,
    a: Seq<char>,
    before: Seq<char>,
    after: Seq<char>,
    b: Seq<char>,
)
    requires
        single_range(a),
        single_range(b),
        forall|i: int| 0 <= i < before.len() ==> #[trigger] before[i] == ' ',
        forall|i: int| 0 <= i < after.len() ==> #[trigger] after[i] == ' ',
    ensures
        ({
            let first = verdict(installed, a);
            let second = verdict(installed, b);
            let both = verdict(installed, a + before + seq!['|', '|'] + (after + b));
            &&& both == Some(true) <==> (first == Some(true) || second == Some(true))
            &&& both == Some(false) <==> (first != Some(true) && second != Some(true) && (first
                == Some(false) || second == Some(false)))
        }),
{
    let s = a + before + seq!['|', '|'] + (after + b);
    let v = version::installed_version(installed);
    lemma_one_range(installed, a);
    lemma_one_range(installed, b);
    lemma_two_ranges(a, before, after, b);
    lemma_ranges(installed, s, seq![a + before, after + b]);
    lemma_blanks_go(a, before, after, b);
    lemma_either(v, a + before, after + b);
}

/// Texts one behind the other.
pub open spec fn run_together(parts: Seq<Seq<char>>, i: int) -> Seq<char>
    decreases parts.len() - i,
{
    if i < 0 || i >= parts.len() {
        seq![]
    } else {
        parts[i] + run_together(parts, i + 1)
    }
}

proof fn lemma_run_behind(first: Seq<char>, rest: Seq<Seq<char>>, i: int)
    requires
        0 <= i,
    ensures
        run_together(seq![first] + rest, i + 1) == run_together(rest, i),
    decreases rest.len() - i,
{
    if i < rest.len() {
        lemma_run_behind(first, rest, i + 1);
        assert((seq![first] + rest)[i + 1] == rest[i]);
    }
}

/// Nothing of the words is lost or added where an operator that stands alone
/// is put before the number behind it, and no operator is left alone.
pub proof fn lemma_comparators_keep_the_words(tokens: Seq<Seq<char>>, i: int)
    requires
        0 <= i,
    ensures
        version::comparators_from(tokens, i) matches Some(parts) ==> run_together(parts, 0)
            == run_together(tokens, i) && (forall|k: int|
            0 <= k < parts.len() ==> !version::lone_operator(#[trigger] parts[k])),
    decreases tokens.len() - i,
{
    if i < tokens.len() {
        if version::lone_operator(tokens[i]) {
            if i + 1 < tokens.len() && version::digit_first(
                text::trim_start_char_of(tokens[i + 1], 'v'),
            ) {
                lemma_comparators_keep_the_words(tokens, i + 2);
                if let Some(rest) = version::comparators_from(tokens, i + 2) {
                    let first = tokens[i] + tokens[i + 1];
                    lemma_run_behind(first, rest, 0);
                    assert((seq![first] + rest)[0] == first);
                    assert(run_together(tokens, i + 1) == tokens[i + 1] + run_together(
                        tokens,
                        i + 2,
                    ));
                    assert(run_together(tokens, i) == tokens[i] + (tokens[i + 1] + run_together(
                        tokens,
                        i + 2,
                    )));
                    assert(first + run_together(rest, 0) =~= tokens[i] + (tokens[i + 1]
                        + run_together(rest, 0)));
                    lemma_not_alone(tokens[i], tokens[i + 1]);
                    let parts = seq![first] + rest;
                    assert forall|k: int| 0 <= k < parts.len() implies !version::lone_operator(
                        #[trigger] parts[k],
                    ) by {
                        if k > 0 {
                            assert(parts[k] == rest[k - 1]);
                        }
                    }
                }
            }
        } else if version::comparator_first(tokens[i]) {
            lemma_comparators_keep_the_words(tokens, i + 1);
            if let Some(rest) = version::comparators_from(tokens, i + 1) {
                lemma_run_behind(tokens[i], rest, 0);
                let parts = seq![tokens[i]] + rest;
                assert(parts[0] == tokens[i]);
                assert forall|k: int| 0 <= k < parts.len() implies !version::lone_operator(
                    #[trigger] parts[k],
                ) by {
                    if k > 0 {
                        assert(parts[k] == rest[k - 1]);
                    }
                }
            }
        }
    }
}

proof fn lemma_not_alone(operator: Seq<char>, number: Seq<char>)
    requires
        version::lone_operator(operator),
        version::digit_first(text::trim_start_char_of(number, 'v')),
    ensures
        !version::lone_operator(operator + number),
{
    reveal_strlit("<");
    reveal_strlit("<=");
    reveal_strlit(">");
    reveal_strlit(">=");
    reveal_strlit("=");
    reveal_strlit("^");
    reveal_strlit("~");
    let s = operator + number;
    if number.len() == 0 {
        assert(text::trim_start_char_of(number, 'v') =~= number);
    } else {
        assert(s.last() == number.last());
        if version::lone_operator(s) {
            assert(s.len() <= 2);
            assert(number.len() == 1);
            assert(number[0] == s.last());
            assert(number[0] != 'v');
            assert(text::trim_start_char_of(number, 'v') == number);
        }
    }
}

/// Whether the numbers of `a` come before those of `b`.
pub open spec fn numbers_below(a: VersionModel, b: VersionModel) -> bool {
    a.major < b.major || (a.major == b.major && (a.minor < b.minor || (a.minor == b.minor && a.patch
        < b.patch)))
}

/// Of two versions that differ in a number the first number that differs
/// decides; a version comes behind its own pre-releases.
pub proof fn lemma_versions_in_order(a: VersionModel, b: VersionModel)
    ensures
        numbers_below(a, b) ==> version::version_order(a, b) == Order::Less,
        numbers_below(b, a) ==> version::version_order(a, b) == Order::Greater,
        !numbers_below(a, b) && !numbers_below(b, a) && a.pre.len() == 0 && b.pre.len() > 0
            ==> version::version_order(a, b) == Order::Greater && version::version_order(b, a)
            == Order::Less,
        a == b ==> version::version_order(a, b) == Order::Equal,
{
}

/// A range ends with the last version of what its end names: a major version,
/// a minor version, or that one version.
pub proof fn lemma_range_takes_its_end(v: VersionModel, major: u64, minor: u64, patch: u64)
    requires
        v.pre.len() == 0,
        v.build.len() == 0,
        major < u64::MAX,
        minor < u64::MAX,
    ensures
        version::below_end(v, version::core_version(major, minor, patch), 1) <==> v.major <= major,
        version::below_end(v, version::core_version(major, minor, patch), 2) <==> (v.major < major
            || (v.major == major && v.minor <= minor)),
        version::below_end(v, version::core_version(major, minor, patch), 3) <==> !numbers_below(
            version::core_version(major, minor, patch),
            v,
        ),
{
    let end = version::core_version(major, minor, patch);
    assert(v.pre =~= end.pre && v.build =~= end.build);
    let next_major = version::core_version((major + 1) as u64, 0, 0);
    let next_minor = version::core_version(major, (minor + 1) as u64, 0);
    assert(v.pre =~= next_major.pre && v.build =~= next_major.build);
    assert(v.pre =~= next_minor.pre && v.build =~= next_minor.build);
}

/// A set of comparators is written with a comma and a blank between them, and
/// holds the words of the request and nothing else. One word is no set.
pub proof fn lemma_comparator_set(tokens: Seq<Seq<char>>)
    ensures
        tokens.len() <= 1 ==> version::comparator_set(tokens) is None,
        version::comparator_set(tokens) matches Some(set) ==> exists|parts: Seq<Seq<char>>|
            set == text::joined(parts, seq![',', ' ']) && #[trigger] run_together(parts, 0)
                == run_together(tokens, 0),
{
    reveal_strlit(", ");
    assert(", "@ =~= seq![',', ' ']);
    if let Some(set) = version::comparator_set(tokens) {
        lemma_comparators_keep_the_words(tokens, 0);
        let parts = version::comparators_from(tokens, 0)->0;
        assert(set == text::joined(parts, seq![',', ' ']));
        assert(run_together(parts, 0) == run_together(tokens, 0));
    }
}

proof fn lemma_triple_holds(a: Seq<char>, b: Seq<char>, c: Seq<char>, k: int)
    requires
        versions::numeral(a),
        versions::numeral(b),
        versions::numeral(c),
        0 <= k < versions::triple(a, b, c).len(),
    ensures
        text::is_digit(versions::triple(a, b, c)[k]) || versions::triple(a, b, c)[k] == '.',
{
    let t = versions::triple(a, b, c);
    let m = a.len() as int;
    let n = b.len() as int;
    if k < m {
        assert(t[k] == a[k]);
    } else if k == m {
        assert(t[k] == '.');
    } else if k < m + 1 + n {
        assert(t[k] == b[k - m - 1]);
    } else if k == m + 1 + n {
        assert(t[k] == '.');
    } else {
        assert(t[k] == c[k - m - n - 2]);
    }
}

proof fn lemma_v_goes(t: Seq<char>)
    requires
        t.len() > 0,
        text::is_digit(t[0]),
        text::is_digit(t.last()),
    ensures
        version::without_v(seq!['v'] + t) == t,
        version::without_v(t) == t,
        text::trim_start_char_of(seq!['v'] + t, 'v') == t,
        text::trim_start_char_of(t, 'v') == t,
        text::trim_of(seq!['v'] + t) == seq!['v'] + t,
        text::trim_of(t) == t,
{
    reveal_strlit("v");
    assert("v"@ =~= seq!['v']);
    let s = seq!['v'] + t;
    assert(s[0] == 'v' && s.last() == t.last());
    texts::lemma_trimmed(s);
    texts::lemma_trimmed(t);
    texts::lemma_prefix_goes(seq!['v'], t);
    texts::lemma_start_kept(t, 'v');
    assert(s[1] == t[0]);
    assert(text::past_char(s, 'v', 1) == 1);
    assert(text::past_char(s, 'v', 0) == 1);
    assert(s.skip(1) =~= t);
    assert(text::after_prefix(t, "v"@) is None) by {
        if text::begins(t, "v"@) {
            assert(t.subrange(0, 1)[0] == t[0]);
        }
    }
}

/// A `v` before a version says nothing: neither in a request nor in what is
/// installed.
pub proof fn lemma_v_says_nothing(
    installed: Option<Seq<char>>,
    a: Seq<char>,
    b: Seq<char>,
    c: Seq<char>,
)
    requires
        versions::numeral(a),
        versions::numeral(b),
        versions::numeral(c),
    ensures
        ({
            let t = versions::triple(a, b, c);
            &&& version::exact_version(seq!['v'] + t)
            &&& version::installed_version(Some(seq!['v'] + t)) == version::installed_version(
                Some(t),
            )
            &&& verdict(installed, seq!['v'] + t) == verdict(installed, t)
        }),
{
    let t = versions::triple(a, b, c);
    let s = seq!['v'] + t;
    versions::lemma_triple_reads(a, b, c);
    lemma_triple_holds(a, b, c, 0);
    assert(t[0] == a[0] && t.last() == c.last());
    lemma_v_goes(t);
    assert(!t.contains('|')) by {
        if t.contains('|') {
            let k = choose|k: int| 0 <= k < t.len() && t[k] == '|';
            lemma_triple_holds(a, b, c, k);
        }
    }
    assert(!s.contains('|')) by {
        if s.contains('|') {
            let k = choose|k: int| 0 <= k < s.len() && s[k] == '|';
            assert(t[k - 1] == '|');
        }
    }
    lemma_one_range(installed, s);
    lemma_one_range(installed, t);
    reveal(range);
}

} // verus!
