//! Which installed versions meet a request.

use vstd::prelude::*;

use crate::laws::texts;
use crate::text;
use crate::version;
use crate::version::VersionModel;

verus! {

/// Three numbers with dots between them.
pub open spec fn triple(a: Seq<char>, b: Seq<char>, c: Seq<char>) -> Seq<char> {
    a + seq!['.'] + b + seq!['.'] + c
}

/// Whether `s` is a number without a leading zero that fits a machine word.
pub open spec fn numeral(s: Seq<char>) -> bool {
    &&& s.len() > 0
    &&& forall|i: int| 0 <= i < s.len() ==> '0' <= #[trigger] s[i] && s[i] <= '9'
    &&& s.len() > 1 ==> s[0] != '0'
    &&& text::decimal(s) <= u64::MAX
}

proof fn lemma_pair(a: Seq<char>, b: Seq<char>)
    requires
        text::all_digits(a),
    ensures
        text::pieces(a + seq!['.'] + b, "."@) == seq![a] + text::pieces(b, "."@),
{
    reveal_strlit(".");
    assert("."@ =~= seq!['.']);
    texts::lemma_digits_hold_no_other(a, '.');
    texts::lemma_divided(a, "."@, b);
}

proof fn lemma_single(a: Seq<char>)
    requires
        text::all_digits(a),
    ensures
        text::pieces(a, "."@) == seq![a],
        text::pieces(a, "+"@) == seq![a],
        text::cut(a, "-"@) is None,
        text::cut(a, " - "@) is None,
        text::trim_of(a) == a,
        text::pieces(a, "||"@) == seq![a],
        text::trim_start_char_of(a, 'v') == a,
{
    reveal_strlit(".");
    reveal_strlit("+");
    reveal_strlit("-");
    reveal_strlit(" - ");
    reveal_strlit("||");
    texts::lemma_digits_hold_no_other(a, '.');
    texts::lemma_digits_hold_no_other(a, '+');
    texts::lemma_digits_hold_no_other(a, '-');
    texts::lemma_digits_hold_no_other(a, ' ');
    texts::lemma_digits_hold_no_other(a, '|');
    texts::lemma_undivided(a, "."@);
    texts::lemma_undivided(a, "+"@);
    texts::lemma_undivided(a, "-"@);
    texts::lemma_undivided(a, " - "@);
    texts::lemma_undivided(a, "||"@);
    texts::lemma_trimmed(a);
    texts::lemma_start_kept(a, 'v');
}

/// A text of digits and dots.
spec fn dotted(s: Seq<char>) -> bool {
    s.len() > 0 && text::is_digit(s[0]) && text::is_digit(s.last()) && forall|i: int|
        0 <= i < s.len() ==> text::is_digit(#[trigger] s[i]) || s[i] == '.'
}

proof fn lemma_dotted(s: Seq<char>)
    requires
        dotted(s),
    ensures
        text::pieces(s, "+"@) == seq![s],
        text::cut(s, "-"@) is None,
        text::cut(s, " - "@) is None,
        text::trim_of(s) == s,
        text::pieces(s, "||"@) == seq![s],
        text::trim_start_char_of(s, 'v') == s,
        version::without_v(s) == s,
{
    reveal_strlit("+");
    reveal_strlit("-");
    reveal_strlit(" - ");
    reveal_strlit("||");
    reveal_strlit("v");
    texts::lemma_undivided(s, "+"@);
    texts::lemma_undivided(s, "-"@);
    texts::lemma_undivided(s, " - "@);
    texts::lemma_undivided(s, "||"@);
    texts::lemma_trimmed(s);
    texts::lemma_start_kept(s, 'v');
    assert(text::after_prefix(s, "v"@) is None) by {
        if text::begins(s, "v"@) {
            assert(s[0] == "v"@[0]);
        }
    }
}

proof fn lemma_pair_text(n: Seq<char>, m: Seq<char>)
    requires
        text::all_digits(n),
        text::all_digits(m),
    ensures
        dotted(n + seq!['.'] + m),
        text::pieces(n + seq!['.'] + m, "."@) == seq![n, m],
{
    let s = n + seq!['.'] + m;
    assert(s.last() == m.last());
    assert forall|i: int| 0 <= i < s.len() implies text::is_digit(#[trigger] s[i]) || s[i] == '.' by {
        if i < n.len() {
            assert(s[i] == n[i]);
        } else if i > n.len() {
            assert(s[i] == m[i - n.len() - 1]);
        }
    }
    lemma_pair(n, m);
    lemma_single(m);
    assert(seq![n] + seq![m] =~= seq![n, m]);
}

proof fn lemma_triple_text(a: Seq<char>, b: Seq<char>, c: Seq<char>)
    requires
        text::all_digits(a),
        text::all_digits(b),
        text::all_digits(c),
    ensures
        dotted(triple(a, b, c)),
        text::pieces(triple(a, b, c), "."@) == seq![a, b, c],
{
    let s = triple(a, b, c);
    let tail = b + seq!['.'] + c;
    assert(s =~= a + seq!['.'] + tail);
    lemma_pair_text(b, c);
    lemma_pair(a, tail);
    assert(s.last() == tail.last());
    assert forall|i: int| 0 <= i < s.len() implies text::is_digit(#[trigger] s[i]) || s[i] == '.' by {
        if i < a.len() {
            assert(s[i] == a[i]);
        } else if i > a.len() {
            assert(s[i] == tail[i - a.len() - 1]);
        }
    }
    assert(seq![a] + seq![b, c] =~= seq![a, b, c]);
}

proof fn lemma_digits(s: Seq<char>)
    requires
        numeral(s),
    ensures
        text::all_digits(s),
        version::core_number(s),
{
}

proof fn lemma_core(s: Seq<char>, a: Seq<char>, b: Seq<char>, c: Seq<char>)
    requires
        dotted(s),
        text::pieces(s, "."@) == seq![a, b, c],
        numeral(a),
        numeral(b),
        numeral(c),
    ensures
        version::parts_of(s) is Some,
        version::semver_of(s) == Some(
            version::core_version(
                text::decimal(a) as u64,
                text::decimal(b) as u64,
                text::decimal(c) as u64,
            ),
        ),
{
    lemma_dotted(s);
    lemma_digits(a);
    lemma_digits(b);
    lemma_digits(c);
}

proof fn lemma_no_core(s: Seq<char>)
    requires
        dotted(s),
        text::pieces(s, "."@).len() < 3,
    ensures
        version::parts_of(s) is None,
{
    lemma_dotted(s);
}

proof fn lemma_one_range(installed: Option<Seq<char>>, s: Seq<char>)
    requires
        dotted(s),
        version::range_verdict(version::installed_version(installed), s) is Some,
    ensures
        version::npm_verdict(installed, s) == version::range_verdict(
            version::installed_version(installed),
            s,
        ),
{
    lemma_dotted(s);
    let ranges = text::pieces(text::trim_of(s), "||"@);
    assert(ranges =~= seq![s]);
    assert(text::trim_of(ranges[0]) == s);
}

/// A text of three numbers is the version of those numbers, with neither a
/// pre-release nor build metadata.
pub proof fn lemma_triple_reads(a: Seq<char>, b: Seq<char>, c: Seq<char>)
    requires
        numeral(a),
        numeral(b),
        numeral(c),
    ensures
        version::installed_version(Some(triple(a, b, c))) == Some(
            VersionModel {
                major: text::decimal(a) as u64,
                minor: text::decimal(b) as u64,
                patch: text::decimal(c) as u64,
                pre: seq![],
                build: seq![],
            },
        ),
        version::exact_version(triple(a, b, c)),
{
    let s = triple(a, b, c);
    lemma_triple_text(a, b, c);
    lemma_core(s, a, b, c);
    lemma_dotted(s);
}

/// A single number is no exact version.
pub proof fn lemma_number_is_inexact(n: Seq<char>)
    requires
        text::all_digits(n),
    ensures
        !version::exact_version(n),
{
    lemma_single(n);
    assert(dotted(n));
    lemma_dotted(n);
    lemma_no_core(n);
}

/// A request of one number is met by the versions with that major number and
/// by no others.
pub proof fn lemma_number_asks_for_its_major(installed: Option<Seq<char>>, n: Seq<char>)
    requires
        text::all_digits(n),
        text::decimal(n) <= u64::MAX,
    ensures
        version::npm_verdict(installed, n) == Some(
            version::installed_version(installed) matches Some(v) && v.major == text::decimal(n),
        ),
{
    lemma_single(n);
    assert(dotted(n));
    lemma_dotted(n);
    lemma_no_core(n);
    assert(version::partial_version(n) matches Some((v, parts)) && parts == 1 && v.major
        == text::decimal(n));
    lemma_one_range(installed, n);
}

proof fn lemma_two_parts(s: Seq<char>, n: Seq<char>, m: Seq<char>)
    requires
        dotted(s),
        text::pieces(s, "."@) == seq![n, m],
        text::all_digits(n),
        text::all_digits(m),
        text::decimal(n) <= u64::MAX,
        text::decimal(m) <= u64::MAX,
    ensures
        version::partial_version(s) matches Some((v, parts)) && parts == 2 && v.major
            == text::decimal(n) && v.minor == text::decimal(m) && v.patch == 0 && v.pre.len() == 0,
{
    lemma_dotted(s);
    lemma_no_core(s);
}

/// A request of two numbers is met by the versions with that major and that
/// minor number and by no others.
pub proof fn lemma_two_numbers_ask_for_both(
    installed: Option<Seq<char>>,
    n: Seq<char>,
    m: Seq<char>,
)
    requires
        text::all_digits(n),
        text::all_digits(m),
        text::decimal(n) <= u64::MAX,
        text::decimal(m) <= u64::MAX,
    ensures
        version::npm_verdict(installed, n + seq!['.'] + m) == Some(
            version::installed_version(installed) matches Some(v) && v.major == text::decimal(n)
                && v.minor == text::decimal(m),
        ),
{
    let s = n + seq!['.'] + m;
    lemma_pair_text(n, m);
    lemma_two_parts(s, n, m);
    lemma_dotted(s);
    lemma_no_core(s);
    lemma_one_range(installed, s);
}

proof fn lemma_exact(given: Option<VersionModel>, s: Seq<char>, expected: VersionModel)
    requires
        dotted(s),
        version::parts_of(s) is Some,
        version::semver_of(s) == Some(expected),
    ensures
        version::range_verdict(given, s) == Some(given == Some(expected)),
{
    lemma_dotted(s);
}

/// A request of three numbers is met by that version alone.
pub proof fn lemma_three_numbers_ask_for_one_version(
    installed: Option<Seq<char>>,
    a: Seq<char>,
    b: Seq<char>,
    c: Seq<char>,
)
    requires
        numeral(a),
        numeral(b),
        numeral(c),
    ensures
        version::npm_verdict(installed, triple(a, b, c)) == Some(
            version::installed_version(installed) matches Some(v) && v.major == text::decimal(a)
                && v.minor == text::decimal(b) && v.patch == text::decimal(c) && v.pre.len() == 0
                && v.build.len() == 0,
        ),
{
    let s = triple(a, b, c);
    lemma_triple_text(a, b, c);
    lemma_core(s, a, b, c);
    let given = version::installed_version(installed);
    let expected = version::core_version(
        text::decimal(a) as u64,
        text::decimal(b) as u64,
        text::decimal(c) as u64,
    );
    lemma_exact(given, s, expected);
    lemma_one_range(installed, s);
    if let Some(v) = given {
        if v.pre.len() == 0 && v.build.len() == 0 {
            assert(v.pre =~= expected.pre);
            assert(v.build =~= expected.build);
        }
    }
}

/// Between two numbers with a hyphen lie the versions whose major number is
/// neither below the first nor above the second.
pub proof fn lemma_hyphen_takes_both_majors(v: VersionModel, low: Seq<char>, high: Seq<char>)
    requires
        text::all_digits(low),
        text::all_digits(high),
        text::decimal(low) <= u64::MAX,
        text::decimal(high) < u64::MAX,
        v.pre.len() == 0,
        v.build.len() == 0,
    ensures
        version::range_verdict(Some(v), low + seq![' ', '-', ' '] + high) == Some(
            text::decimal(low) <= v.major <= text::decimal(high),
        ),
{
    let s = low + seq![' ', '-', ' '] + high;
    lemma_hyphen_text(low, high);
    lemma_one_part(low);
    lemma_one_part(high);
    let (bottom, _) = version::partial_version(low)->0;
    assert(v.pre =~= bottom.pre && v.build =~= bottom.build);
}

proof fn lemma_one_part(n: Seq<char>)
    requires
        text::all_digits(n),
        text::decimal(n) <= u64::MAX,
    ensures
        version::partial_version(n) == Some(
            (version::core_version(text::decimal(n) as u64, 0, 0), 1nat),
        ),
{
    lemma_single(n);
    assert(dotted(n));
    lemma_dotted(n);
    lemma_no_core(n);
}

proof fn lemma_hyphen_text(low: Seq<char>, high: Seq<char>)
    requires
        text::all_digits(low),
        text::all_digits(high),
    ensures
        ({
            let s = low + seq![' ', '-', ' '] + high;
            &&& text::cut(s, " - "@) == Some((low, high))
            &&& !version::exact_version(s)
        }),
{
    let s = low + seq![' ', '-', ' '] + high;
    reveal_strlit(" - ");
    reveal_strlit("-");
    reveal_strlit("+");
    reveal_strlit("v");
    assert(" - "@ =~= seq![' ', '-', ' ']);
    texts::lemma_digits_hold_no_other(low, ' ');
    texts::lemma_divided(low, " - "@, high);
    assert(s[0] == low[0] && s.last() == high.last());
    texts::lemma_trimmed(s);
    assert(text::after_prefix(s, "v"@) is None) by {
        if text::begins(s, "v"@) {
            assert(s[0] == "v"@[0]);
        }
    }
    assert(!s.contains('+')) by {
        if s.contains('+') {
            let k = choose|k: int| 0 <= k < s.len() && s[k] == '+';
            if k < low.len() {
                assert(s[k] == low[k]);
            } else if k >= low.len() + 3 {
                assert(s[k] == high[k - low.len() - 3]);
            }
        }
    }
    texts::lemma_undivided(s, "+"@);
    let core = low + seq![' '];
    assert(!core.contains('-')) by {
        if core.contains('-') {
            let k = choose|k: int| 0 <= k < core.len() && core[k] == '-';
            if k < low.len() {
                assert(core[k] == low[k]);
            }
        }
    }
    let pre = seq![' '] + high;
    assert("-"@ =~= seq!['-']);
    texts::lemma_divided(core, "-"@, pre);
    assert(core + "-"@ + pre =~= s);
    assert(!version::identifiers(pre, true)) by {
        reveal_strlit(".");
        texts::lemma_digits_hold_no_other(high, '.');
        assert(!pre.contains('.')) by {
            if pre.contains('.') {
                let k = choose|k: int| 0 <= k < pre.len() && pre[k] == '.';
                assert(pre[k] == high[k - 1]);
            }
        }
        texts::lemma_undivided(pre, "."@);
        assert(text::pieces(pre, "."@)[0] == pre);
        assert(!version::is_identifier_char(pre[0]));
    }
}

} // verus!
