//! How the smaller texts are read: fences, hosts, names, numbers and
//! identifiers.

use vstd::prelude::*;

use crate::frontmatter;
use crate::git_source;
use crate::laws::texts;
use crate::npm_command;
use crate::npm_spec;
use crate::text;
use crate::version;

verus! {

proof fn lemma_first_fence(head: Seq<char>, fence: Seq<char>, body: Seq<char>)
    requires
        fence == seq!['\n', '-', '-', '-'],
        text::index_of(head, fence) is None,
    ensures
        text::index_of(head + fence + body, fence) == Some(head.len() as int),
{
    let rest = head + fence + body;
    let n = head.len() as int;
    text::lemma_index_from(head, fence, 0);
    text::lemma_index_from(rest, fence, 0);
    assert(rest.subrange(n, n + 4) =~= fence);
    assert(text::stands_at(rest, fence, n));
    let found = text::index_of(rest, fence);
    assert(found is Some);
    let k = found->0;
    assert(k <= n);
    if k < n {
        let part = rest.subrange(k, k + 4);
        assert(part == fence);
        if k + 4 <= n {
            assert(head.subrange(k, k + 4) =~= part);
            assert(text::stands_at(head, fence, k));
        } else {
            assert(part[n - k] == rest[n]);
            assert(rest[n] == '\n');
            assert(fence[n - k] == '-');
        }
    }
}

/// What stands between two lines of three dashes is the front matter, and what
/// stands behind the second is the body.
pub proof fn lemma_fences_split(yaml: Seq<char>, body: Seq<char>)
    requires
        text::index_of(seq!['\n'] + yaml, seq!['\n', '-', '-', '-']) is None,
    ensures
        frontmatter::fenced(seq!['-', '-', '-', '\n'] + yaml + seq!['\n', '-', '-', '-'] + body)
            == Some((yaml, text::trim_of(body))),
{
    reveal_strlit("---");
    reveal_strlit("\n---");
    assert("---"@ =~= seq!['-', '-', '-']);
    let fence = "\n---"@;
    assert(fence =~= seq!['\n', '-', '-', '-']);
    let head = seq!['\n'] + yaml;
    let n = head.len() as int;
    let s = seq!['-', '-', '-', '\n'] + yaml + seq!['\n', '-', '-', '-'] + body;
    assert(s.subrange(0, 3) =~= "---"@);
    assert(s.skip(3) =~= head + fence + body);
    lemma_first_fence(head, fence, body);
    assert(s[3] == '\n');
    assert(s.subrange(4, n + 3) =~= yaml);
    assert(s.skip(n + 7) =~= body);
}

/// A second reading counts where the first failed and the second did not, and
/// in no other case.
pub proof fn lemma_second_reading(
    first: Result<Seq<char>, Seq<char>>,
    second: Option<Result<Seq<char>, Seq<char>>>,
)
    ensures
        first is Ok || !(second matches Some(Ok(_))) ==> frontmatter::settled(first, second)
            == first,
        first is Err ==> (second matches Some(Ok(document)) ==> frontmatter::settled(first, second)
            == Ok::<Seq<char>, Seq<char>>(document)),
{
}

/// Whether `s` is a name of a host without a port.
pub open spec fn plain_host(s: Seq<char>) -> bool {
    &&& s.len() > 0
    &&& !text::is_whitespace(s[0])
    &&& !text::is_whitespace(s.last())
    &&& s[0] != '['
    &&& !s.contains(':')
}

/// A host is read with or without a port behind it.
pub proof fn lemma_port_is_no_part_of_the_host(host: Seq<char>, port: Seq<char>)
    requires
        plain_host(host),
        text::all_digits(port),
    ensures
        git_source::git_host(host) == Some(host),
        git_source::git_host(host + seq![':'] + port) == Some(host),
{
    reveal_strlit(":");
    assert(":"@ =~= seq![':']);
    texts::lemma_trimmed(host);
    let s = host + seq![':'] + port;
    assert(s[0] == host[0] && s.last() == port.last());
    texts::lemma_trimmed(s);
    texts::lemma_digits_hold_no_other(port, ':');
    lemma_no_mark(host, ":"@);
    lemma_last_mark(host, ":"@, port);
}

proof fn lemma_no_mark(s: Seq<char>, mark: Seq<char>)
    requires
        mark.len() == 1,
        !s.contains(mark[0]),
    ensures
        text::cut_last(s, mark) is None,
{
    text::lemma_last_index_to(s, mark, s.len() - 1);
    if let Some(k) = text::last_index_of(s, mark) {
        assert(s.subrange(k, k + 1)[0] == s[k]);
        assert(s.contains(s[k]));
    }
}

proof fn lemma_last_mark(a: Seq<char>, mark: Seq<char>, b: Seq<char>)
    requires
        mark.len() == 1,
        !b.contains(mark[0]),
    ensures
        text::cut_last(a + mark + b, mark) == Some((a, b)),
{
    let s = a + mark + b;
    let n = a.len() as int;
    text::lemma_last_index_to(s, mark, s.len() - 1);
    assert(s.subrange(n, n + 1) =~= mark);
    assert(text::stands_at(s, mark, n));
    let found = text::last_index_of(s, mark);
    assert(found is Some);
    let k = found->0;
    assert(k >= n);
    if k > n {
        assert(s.subrange(k, k + 1)[0] == s[k]);
        assert(b[k - n - 1] == s[k]);
        assert(b.contains(b[k - n - 1]));
    }
    assert(s.take(n) =~= a);
    assert(s.skip(n + 1) =~= b);
}

/// The name of a package ends before its version; the `@` of a scope is a part
/// of the name.
pub proof fn lemma_version_is_no_part_of_the_name(name: Seq<char>, version: Seq<char>)
    requires
        name.len() > 0,
        !name.contains('@'),
    ensures
        npm_spec::bare_name(name) == name,
        npm_spec::bare_name(name + seq!['@'] + version) == name,
        npm_spec::bare_name(seq!['@'] + name) == seq!['@'] + name,
        npm_spec::bare_name(seq!['@'] + name + seq!['@'] + version) == seq!['@'] + name,
{
    reveal_strlit("@");
    assert("@"@ =~= seq!['@']);
    assert(name.contains(name[0]));
    texts::lemma_undivided(name, "@"@);
    texts::lemma_found(name, "@"@, version);
    let with = name + seq!['@'] + version;
    assert(with[0] == name[0]);
    assert(with.take(name.len() as int) =~= name);
    let scoped = seq!['@'] + name;
    assert(scoped.skip(1) =~= name);
    let both = seq!['@'] + name + seq!['@'] + version;
    assert(both.skip(1) =~= with);
    assert(both.take(name.len() as int + 1) =~= scoped);
}

/// A number may have one plus before it; it is read where it fits and refused
/// where it does not. Nothing else is a number.
pub proof fn lemma_numbers(s: Seq<char>, max: nat)
    ensures
        text::all_digits(s) && text::decimal(s) <= max ==> text::number_of(s, max) == Some(
            text::decimal(s),
        ) && text::number_of(seq!['+'] + s, max) == Some(text::decimal(s)),
        text::all_digits(s) && text::decimal(s) > max ==> text::number_of(s, max) is None,
        s.len() == 0 ==> text::number_of(s, max) is None,
        forall|i: int|
            1 <= i < s.len() && !('0' <= #[trigger] s[i] && s[i] <= '9') ==> text::number_of(s, max)
                is None,
        s.len() > 0 && s[0] == '-' ==> text::number_of(s, max) is None,
{
    let plus = seq!['+'] + s;
    assert(plus.skip(1) =~= s);
    if text::all_digits(s) {
        assert(text::is_digit(s[0]));
    }
    assert forall|i: int| 1 <= i < s.len() && !('0' <= #[trigger] s[i] && s[i] <= '9') implies text::number_of(
    s, max) is None by {
        if text::first_is(s, '+') {
            assert(s.skip(1)[i - 1] == s[i]);
            assert(!text::is_digit(s.skip(1)[i - 1]));
        } else {
            assert(!text::is_digit(s[i]));
        }
    }
    if s.len() > 0 && s[0] == '-' {
        assert(!text::is_digit(s[0]));
    }
}

/// One identifier holds letters, digits and hyphens and is not empty; where it
/// must be strict, a number has no zero before it. Identifiers with a dot
/// between them are all identifiers.
pub proof fn lemma_identifiers(a: Seq<char>, b: Seq<char>, strict: bool)
    requires
        !a.contains('.'),
    ensures
        version::identifiers(a, strict) <==> version::identifier(a, strict),
        version::identifiers(a + seq!['.'] + b, strict) <==> version::identifier(a, strict)
            && version::identifiers(b, strict),
        a.len() == 0 ==> !version::identifier(a, strict),
        a.len() > 1 && text::only_digits(a) && a[0] == '0' ==> !version::identifier(a, true),
        a.len() > 0 && text::only_digits(a) ==> version::identifier(a, false),
{
    reveal_strlit(".");
    assert("."@ =~= seq!['.']);
    texts::lemma_undivided(a, "."@);
    texts::lemma_divided(a, "."@, b);
    let alone = text::pieces(a, "."@);
    assert(alone[0] == a);
    let rest = text::pieces(b, "."@);
    let all = text::pieces(a + seq!['.'] + b, "."@);
    assert(all == seq![a] + rest);
    assert(all[0] == a);
    if version::identifiers(a + seq!['.'] + b, strict) {
        assert(version::identifier(all[0], strict));
        assert forall|i: int| 0 <= i < rest.len() implies version::identifier(
            #[trigger] rest[i],
            strict,
        ) by {
            assert(all[i + 1] == rest[i]);
        }
    }
    if version::identifier(a, strict) && version::identifiers(b, strict) {
        assert forall|i: int| 0 <= i < all.len() implies version::identifier(
            #[trigger] all[i],
            strict,
        ) by {
            if i > 0 {
                assert(all[i] == rest[i - 1]);
            }
        }
    }
}

/// A failed run is told with its status, and with what it printed where that
/// is more than white space.
pub proof fn lemma_failure_is_told(status: Seq<char>, stderr: Seq<char>)
    ensures
        ({
            let told = npm_command::failure_detail(status, stderr);
            let head = "exited with "@ + status;
            let shown = text::trim_of(stderr);
            &&& shown.len() == 0 ==> told == head
            &&& 0 < shown.len() && text::width_of(shown) <= 512 ==> told == head + seq![':', ' ']
                + shown
        }),
{
    reveal_strlit(": ");
    assert(": "@ =~= seq![':', ' ']);
}

} // verus!
