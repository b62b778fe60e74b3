//! When a release is refused, and what is published.

use vstd::prelude::*;

use crate::laws::texts;
use crate::release;
use crate::release::{
    PublishModel, PublishedVersion, ReleaseInputs, ReleaseModel, WaitModel, CRATE_COUNT,
    INTERNAL_COUNT,
};
use crate::text;

verus! {

/// Whether `s` is made of spaces alone.
pub open spec fn blank(s: Seq<char>) -> bool {
    forall|i: int| 0 <= i < s.len() ==> #[trigger] s[i] == ' '
}

proof fn lemma_blank_gone(s: Seq<char>)
    requires
        blank(s),
    ensures
        text::replaced(s, " "@, ""@) == Seq::<char>::empty(),
    decreases s.len(),
{
    reveal_strlit(" ");
    reveal_strlit("");
    if s.len() == 0 {
        texts::lemma_undivided(s, " "@);
        assert(s =~= Seq::<char>::empty());
    } else {
        assert(" "@ =~= seq![' ']);
        assert(s =~= Seq::<char>::empty() + " "@ + s.skip(1));
        texts::lemma_divided(Seq::<char>::empty(), " "@, s.skip(1));
        text::lemma_index_from(s, " "@, 0);
        assert(text::stands_at(s, " "@, 0));
        lemma_blank_gone(s.skip(1));
        assert(s.take(0) + ""@ + Seq::<char>::empty() =~= Seq::<char>::empty());
    }
}

proof fn lemma_spaceless(s: Seq<char>)
    requires
        !s.contains(' '),
    ensures
        text::replaced(s, " "@, ""@) == s,
{
    reveal_strlit(" ");
    texts::lemma_undivided(s, " "@);
}

/// An assignment as it is written in a manifest, with any spaces round the
/// key, the sign and the value.
pub open spec fn written(
    a: Seq<char>,
    key: Seq<char>,
    b: Seq<char>,
    c: Seq<char>,
    value: Seq<char>,
    d: Seq<char>,
) -> Seq<char> {
    a + key + b + seq!['='] + c + value + d
}

/// Whether `s` can be a key or a value: it has neither space at its ends nor
/// an equals sign, and does not begin a comment.
pub open spec fn bare(s: Seq<char>) -> bool {
    &&& s.len() > 0
    &&& !text::is_whitespace(s[0])
    &&& !text::is_whitespace(s.last())
    &&& s[0] != '#'
    &&& !s.contains('=')
}

/// An assignment gives its key its value, whatever spaces stand in it.
pub proof fn lemma_assignment_reads(
    a: Seq<char>,
    key: Seq<char>,
    b: Seq<char>,
    c: Seq<char>,
    value: Seq<char>,
    d: Seq<char>,
)
    requires
        blank(a),
        blank(b),
        blank(c),
        blank(d),
        bare(key),
        bare(value),
    ensures
        release::assigns(written(a, key, b, c, value, d), key),
        release::value_of(written(a, key, b, c, value, d)) == Some(value),
{
    reveal_strlit("=");
    assert("="@ =~= seq!['=']);
    let line = written(a, key, b, c, value, d);
    let left = a + key + b;
    let right = c + value + d;
    assert(line =~= left + "="@ + right);
    assert(!left.contains('=')) by {
        if left.contains('=') {
            let k = choose|k: int| 0 <= k < left.len() && left[k] == '=';
            if k < a.len() {
                assert(left[k] == a[k]);
            } else if k < a.len() + key.len() {
                assert(left[k] == key[k - a.len()]);
                assert(key.contains(key[k - a.len()]));
            } else {
                assert(left[k] == b[k - a.len() - key.len()]);
            }
        }
    }
    texts::lemma_divided(left, "="@, right);
    texts::lemma_trim_takes_space(c, value, d);
    let core = key + b + seq!['='] + c + value;
    assert(line =~= a + core + d);
    assert(core[0] == key[0]);
    assert(core.last() == value.last());
    texts::lemma_trim_takes_space(a, core, d);
    let inner = key + b;
    assert(core =~= inner + "="@ + (c + value));
    assert(!inner.contains('=')) by {
        if inner.contains('=') {
            let k = choose|k: int| 0 <= k < inner.len() && inner[k] == '=';
            if k < key.len() {
                assert(key.contains(key[k]));
            } else {
                assert(inner[k] == b[k - key.len()]);
            }
        }
    }
    texts::lemma_divided(inner, "="@, c + value);
    texts::lemma_trim_takes_space(Seq::<char>::empty(), key, b);
    assert(Seq::<char>::empty() + key + b =~= inner);
}

proof fn lemma_first_assignment(lines: Seq<Seq<char>>, key: Seq<char>, i: int, k: int)
    requires
        0 <= i <= k < lines.len(),
        release::assigns(lines[k], key),
        forall|j: int| i <= j < k ==> !release::assigns(#[trigger] lines[j], key),
    ensures
        release::assignment_from(lines, key, i) == Some(lines[k]),
    decreases k - i,
{
    if i < k {
        lemma_first_assignment(lines, key, i + 1, k);
    }
}

/// A key has the value of the first line that assigns to it; a key to which
/// no line assigns has none.
pub proof fn lemma_first_assignment_counts(section: Seq<char>, key: Seq<char>, k: int)
    requires
        0 <= k <= text::lines_of(section).len(),
        forall|j: int| 0 <= j < k ==> !release::assigns(#[trigger] text::lines_of(section)[j], key),
    ensures
        k < text::lines_of(section).len() && release::assigns(text::lines_of(section)[k], key)
            ==> release::assignment_from(text::lines_of(section), key, 0) == Some(
            text::lines_of(section)[k],
        ),
        k == text::lines_of(section).len() ==> release::assignment_from(
            text::lines_of(section),
            key,
            0,
        ) is None,
{
    let lines = text::lines_of(section);
    if k < lines.len() {
        if release::assigns(lines[k], key) {
            lemma_first_assignment(lines, key, 0, k);
        }
    } else {
        lemma_no_assignment(lines, key, 0);
    }
}

proof fn lemma_no_assignment(lines: Seq<Seq<char>>, key: Seq<char>, i: int)
    requires
        0 <= i,
        forall|j: int| i <= j < lines.len() ==> !release::assigns(#[trigger] lines[j], key),
    ensures
        release::assignment_from(lines, key, i) is None,
    decreases lines.len() - i,
{
    if i < lines.len() {
        lemma_no_assignment(lines, key, i + 1);
    }
}

/// A package whose `publish` line has the value `false` is refused, with any
/// spaces in that line.
pub proof fn lemma_unpublished_is_refused(
    crate_name: Seq<char>,
    package: Seq<char>,
    k: int,
    a: Seq<char>,
    b: Seq<char>,
    c: Seq<char>,
    d: Seq<char>,
)
    requires
        blank(a),
        blank(b),
        blank(c),
        blank(d),
        0 <= k < text::lines_of(package).len(),
        text::lines_of(package)[k] == written(
            a,
            seq!['p', 'u', 'b', 'l', 'i', 's', 'h'],
            b,
            c,
            seq!['f', 'a', 'l', 's', 'e'],
            d,
        ),
        forall|j: int|
            0 <= j < k ==> !release::assigns(
                #[trigger] text::lines_of(package)[j],
                seq!['p', 'u', 'b', 'l', 'i', 's', 'h'],
            ),
    ensures
        release::publish_problem(crate_name, package) == Some(
            crate_name + " is marked publish = false"@,
        ),
{
    let key = seq!['p', 'u', 'b', 'l', 'i', 's', 'h'];
    let value = seq!['f', 'a', 'l', 's', 'e'];
    reveal_strlit("publish");
    reveal_strlit("false");
    assert("publish"@ =~= key);
    assert("false"@ =~= value);
    lemma_assignment_reads(a, key, b, c, value, d);
    lemma_first_assignment_counts(package, key, k);
    lemma_spaceless(value);
}

/// A package whose `publish` line lists registries is refused unless
/// `crates-io` is one of them; an empty list counts as `false`.
pub proof fn lemma_registries_decide(
    crate_name: Seq<char>,
    package: Seq<char>,
    k: int,
    a: Seq<char>,
    b: Seq<char>,
    c: Seq<char>,
    value: Seq<char>,
    d: Seq<char>,
)
    requires
        blank(a),
        blank(b),
        blank(c),
        blank(d),
        bare(value),
        !value.contains(' '),
        value[0] == '[',
        value.last() == ']',
        0 <= k < text::lines_of(package).len(),
        text::lines_of(package)[k] == written(
            a,
            seq!['p', 'u', 'b', 'l', 'i', 's', 'h'],
            b,
            c,
            value,
            d,
        ),
        forall|j: int|
            0 <= j < k ==> !release::assigns(
                #[trigger] text::lines_of(package)[j],
                seq!['p', 'u', 'b', 'l', 'i', 's', 'h'],
            ),
    ensures
        release::publish_problem(crate_name, package) is None <==> text::holds(
            value,
            "\"crates-io\""@,
        ),
{
    let key = seq!['p', 'u', 'b', 'l', 'i', 's', 'h'];
    reveal_strlit("publish");
    reveal_strlit("false");
    reveal_strlit("[]");
    reveal_strlit("\"crates-io\"");
    assert("publish"@ =~= key);
    lemma_assignment_reads(a, key, b, c, value, d);
    lemma_first_assignment_counts(package, key, k);
    lemma_spaceless(value);
    assert("false"@[0] != '[');
    if text::holds(value, "\"crates-io\""@) {
        assert(value != "[]"@) by {
            text::lemma_index_from(value, "\"crates-io\""@, 0);
        }
    }
}

/// A package without a `publish` line may be published, and so may one whose
/// line has the value `true`.
pub proof fn lemma_published_by_default(
    crate_name: Seq<char>,
    package: Seq<char>,
    k: int,
    a: Seq<char>,
    b: Seq<char>,
    c: Seq<char>,
    d: Seq<char>,
)
    requires
        blank(a),
        blank(b),
        blank(c),
        blank(d),
        0 <= k <= text::lines_of(package).len(),
        k < text::lines_of(package).len() ==> text::lines_of(package)[k] == written(
            a,
            seq!['p', 'u', 'b', 'l', 'i', 's', 'h'],
            b,
            c,
            seq!['t', 'r', 'u', 'e'],
            d,
        ),
        forall|j: int|
            0 <= j < k ==> !release::assigns(
                #[trigger] text::lines_of(package)[j],
                seq!['p', 'u', 'b', 'l', 'i', 's', 'h'],
            ),
    ensures
        release::publish_problem(crate_name, package) is None,
{
    let key = seq!['p', 'u', 'b', 'l', 'i', 's', 'h'];
    let value = seq!['t', 'r', 'u', 'e'];
    reveal_strlit("publish");
    reveal_strlit("false");
    reveal_strlit("[]");
    assert("publish"@ =~= key);
    lemma_assignment_reads(a, key, b, c, value, d);
    lemma_first_assignment_counts(package, key, k);
    lemma_spaceless(value);
    assert("false"@[0] != value[0]);
    assert("[]"@[0] != value[0]);
}

/// A release is in order only where all of it is: the worktree is clean or
/// need not be, the workspace states the version and every crate that others
/// depend on with it, and every crate is listed, named as expected, of that
/// version and may be published.
pub proof fn lemma_release_in_order(
    expected: Seq<char>,
    allow_dirty: bool,
    inputs: ReleaseInputs,
    i: int,
)
    requires
        0 <= i < CRATE_COUNT,
        inputs.manifests@.len() == CRATE_COUNT,
        release::release_problem(expected, allow_dirty, inputs) is None,
    ensures
        allow_dirty || inputs.clean == Ok::<bool, String>(true),
        inputs.metadata matches Ok(bytes) && text::holds(
            vstd::utf8::decode_utf8(bytes@),
            "{\"name\":\""@ + release::crate_of(i).0 + "\",\"version\":\""@ + expected + "\""@,
        ),
        inputs.root matches Ok(root) && release::section_of(root@, "workspace.package"@) matches Some(
            package,
        ) && release::string_of(package, "version"@) == Some(expected),
        inputs.manifests@[i] matches Ok(manifest) && release::section_of(
            manifest@,
            "package"@,
        ) matches Some(package) && release::string_of(package, "name"@) == Some(
            release::crate_of(i).0,
        ) && release::publish_problem(release::crate_of(i).0, package) is None && (
        release::string_of(package, "version"@) == Some(expected) || (release::assignment_from(
            text::lines_of(package),
            "version.workspace"@,
            0,
        ) matches Some(line) && release::value_of(line) == Some("true"@))),
{
    let bytes = inputs.metadata->Ok_0;
    let metadata = vstd::utf8::decode_utf8(bytes@);
    let packages = release::packages_in(metadata)->0;
    let manifests = release::read_views(inputs.manifests@);
    release::lemma_valid_release_is_consistent(packages, manifests, expected, 0, i);
    let marker = release::package_marker(release::crate_of(i).0, expected);
    let (_, rest) = text::cut(metadata, "\"packages\":["@)->0;
    lemma_held_before(rest, "],\"workspace_members\""@, marker);
    lemma_held_behind(metadata, "\"packages\":["@, marker);
}

proof fn lemma_held_at(s: Seq<char>, pattern: Seq<char>, k: int)
    requires
        text::stands_at(s, pattern, k),
    ensures
        text::holds(s, pattern),
{
    text::lemma_index_from(s, pattern, 0);
}

proof fn lemma_held_before(s: Seq<char>, separator: Seq<char>, pattern: Seq<char>)
    requires
        text::cut(s, separator) matches Some((head, _)) && text::holds(head, pattern),
    ensures
        text::holds(s, pattern),
{
    let (head, _) = text::cut(s, separator)->0;
    text::lemma_index_from(s, separator, 0);
    text::lemma_index_from(head, pattern, 0);
    let k = text::index_of(head, pattern)->0;
    assert(s.subrange(k, k + pattern.len()) =~= head.subrange(k, k + pattern.len()));
    lemma_held_at(s, pattern, k);
}

proof fn lemma_held_behind(s: Seq<char>, separator: Seq<char>, pattern: Seq<char>)
    requires
        text::cut(s, separator) matches Some((_, tail)) && text::holds(tail, pattern),
    ensures
        text::holds(s, pattern),
{
    let (_, tail) = text::cut(s, separator)->0;
    text::lemma_index_from(s, separator, 0);
    text::lemma_index_from(tail, pattern, 0);
    let k = text::index_of(tail, pattern)->0;
    let at = text::index_of(s, separator)->0 + separator.len() + k;
    assert(s.subrange(at, at + pattern.len()) =~= tail.subrange(k, k + pattern.len()));
    lemma_held_at(s, pattern, at);
}

/// A release with a crate that is marked as not to be published is refused.
pub proof fn lemma_release_with_unpublished_crate_is_refused(
    expected: Seq<char>,
    allow_dirty: bool,
    inputs: ReleaseInputs,
    i: int,
    package: Seq<char>,
    k: int,
    a: Seq<char>,
    b: Seq<char>,
    c: Seq<char>,
    d: Seq<char>,
)
    requires
        0 <= i < CRATE_COUNT,
        inputs.manifests@.len() == CRATE_COUNT,
        inputs.manifests@[i] matches Ok(manifest) && release::section_of(manifest@, "package"@)
            == Some(package),
        blank(a),
        blank(b),
        blank(c),
        blank(d),
        0 <= k < text::lines_of(package).len(),
        text::lines_of(package)[k] == written(
            a,
            seq!['p', 'u', 'b', 'l', 'i', 's', 'h'],
            b,
            c,
            seq!['f', 'a', 'l', 's', 'e'],
            d,
        ),
        forall|j: int|
            0 <= j < k ==> !release::assigns(
                #[trigger] text::lines_of(package)[j],
                seq!['p', 'u', 'b', 'l', 'i', 's', 'h'],
            ),
    ensures
        release::release_problem(expected, allow_dirty, inputs) is Some,
{
    if release::release_problem(expected, allow_dirty, inputs) is None {
        lemma_release_in_order(expected, allow_dirty, inputs, i);
        lemma_unpublished_is_refused(release::crate_of(i).0, package, k, a, b, c, d);
    }
}

/// The workspace of a release that is in order states every crate that others
/// depend on with the version of the release.
pub proof fn lemma_workspace_states_every_version(
    root: Seq<char>,
    expected: Seq<char>,
    i: int,
)
    requires
        0 <= i < INTERNAL_COUNT,
        release::workspace_problem(root, expected) is None,
    ensures
        release::section_of(root, "workspace.dependencies"@) matches Some(section)
            && release::assignment_from(
            text::lines_of(section),
            release::crate_of(i).0,
            0,
        ) matches Some(line) && release::inline_string(line, "version"@) == Some(expected),
{
    lemma_dependencies_state(
        release::section_of(root, "workspace.dependencies"@)->0,
        expected,
        0,
        i,
    );
}

proof fn lemma_dependencies_state(section: Seq<char>, expected: Seq<char>, from: int, i: int)
    requires
        0 <= from <= i < INTERNAL_COUNT,
        release::dependencies_problem(section, expected, from) is None,
    ensures
        release::assignment_from(text::lines_of(section), release::crate_of(i).0, 0) matches Some(
            line,
        ) && release::inline_string(line, "version"@) == Some(expected),
    decreases i - from,
{
    if from < i {
        lemma_dependencies_state(section, expected, from + 1, i);
    }
}

/// In a manifest without a problem, every line that assigns to a crate of the
/// release inherits from the workspace or states the version.
pub proof fn lemma_lines_state_the_version(
    crate_name: Seq<char>,
    lines: Seq<Seq<char>>,
    expected: Seq<char>,
    from: int,
    k: int,
    i: int,
)
    requires
        0 <= from <= k < lines.len(),
        0 <= i < CRATE_COUNT,
        release::lines_problem(crate_name, lines, expected, from) is None,
        text::cut(text::trim_of(lines[k]), "="@) matches Some((key, _)) && text::trim_of(key)
            == release::crate_of(i).0,
    ensures
        text::holds(lines[k], "workspace = true"@) || release::inline_string(
            lines[k],
            "version"@,
        ) == Some(expected),
    decreases k - from,
{
    if from < k {
        lemma_lines_state_the_version(crate_name, lines, expected, from + 1, k, i);
    } else {
        lemma_released(release::crate_of(i).0, 0, i);
    }
}

proof fn lemma_released(name: Seq<char>, from: int, i: int)
    requires
        0 <= from <= i < CRATE_COUNT,
        release::crate_of(i).0 == name,
    ensures
        release::released_from(name, from),
    decreases i - from,
{
    if from < i {
        lemma_released(name, from + 1, i);
    }
}

/// The crates of a release are told apart by their names, and a name is one
/// of theirs exactly where some crate has it.
pub proof fn lemma_crates_are_told_apart(i: int, j: int, name: Seq<char>)
    requires
        0 <= i < j < CRATE_COUNT,
    ensures
        release::crate_of(i).0 != release::crate_of(j).0,
        release::released_from(name, 0) <==> exists|k: int|
            0 <= k < CRATE_COUNT && (#[trigger] release::crate_of(k)).0 == name,
{
    reveal_strlit("rpi-telemetry");
    reveal_strlit("rpi-ai");
    reveal_strlit("rpi-agent");
    reveal_strlit("rpi-plugin-sdk");
    reveal_strlit("rpi-extensions");
    reveal_strlit("rpi-tools");
    reveal_strlit("rpi-harness");
    reveal_strlit("rpi-tui");
    reveal_strlit("rpi-cli");
    assert("rpi-telemetry"@.len() == 13 && "rpi-ai"@.len() == 6 && "rpi-agent"@.len() == 9);
    assert("rpi-plugin-sdk"@.len() == 14 && "rpi-extensions"@.len() == 14);
    assert("rpi-tools"@.len() == 9 && "rpi-harness"@.len() == 11);
    assert("rpi-tui"@.len() == 7 && "rpi-cli"@.len() == 7);
    assert("rpi-tui"@[5] == 'u' && "rpi-cli"@[5] == 'l');
    assert("rpi-extensions"@[4] == 'e' && "rpi-plugin-sdk"@[4] == 'p');
    assert("rpi-agent"@[4] == 'a' && "rpi-tools"@[4] == 't');
    lemma_released_somewhere(name, 0);
    if exists|k: int| 0 <= k < CRATE_COUNT && (#[trigger] release::crate_of(k)).0 == name {
        let k = choose|k: int|
            0 <= k < CRATE_COUNT && (#[trigger] release::crate_of(k)).0 == name;
        lemma_released(name, 0, k);
    }
}

proof fn lemma_released_somewhere(name: Seq<char>, from: int)
    requires
        0 <= from,
    ensures
        release::released_from(name, from) ==> exists|k: int|
            from <= k < CRATE_COUNT && (#[trigger] release::crate_of(k)).0 == name,
    decreases CRATE_COUNT - from,
{
    if from < CRATE_COUNT {
        lemma_released_somewhere(name, from + 1);
        if release::crate_of(from).0 == name {
            assert(0 <= from < CRATE_COUNT);
        }
    }
}

/// What the registry answers decides: a version that it has is there or was
/// taken back, one that it does not know is missing, and any other answer is
/// an error.
pub proof fn lemma_registry_answer(
    crate_name: Seq<char>,
    version: Seq<char>,
    status: u16,
    body: Seq<char>,
)
    ensures
        release::version_state(crate_name, version, status, body) == Ok::<
            PublishedVersion,
            Seq<char>,
        >(PublishedVersion::Missing) <==> status == 404,
        release::version_state(crate_name, version, status, body) == Ok::<
            PublishedVersion,
            Seq<char>,
        >(PublishedVersion::Available) <==> status == 200 && release::bool_field(body, "yanked"@)
            == Some(false),
        release::version_state(crate_name, version, status, body) == Ok::<
            PublishedVersion,
            Seq<char>,
        >(PublishedVersion::Yanked) <==> status == 200 && release::bool_field(body, "yanked"@)
            == Some(true),
{
}

/// A field of a JSON text that is `true` or `false` reads as that.
pub proof fn lemma_field_reads(
    before: Seq<char>,
    field: Seq<char>,
    rest: Seq<char>,
    yes: bool,
)
    requires
        !before.contains('"'),
    ensures
        release::bool_field(
            before + (seq!['"'] + field + seq!['"']) + (seq![':'] + (if yes {
                seq!['t', 'r', 'u', 'e']
            } else {
                seq!['f', 'a', 'l', 's', 'e']
            }) + rest),
            field,
        ) == Some(yes),
{
    reveal_strlit("\"");
    reveal_strlit(":");
    reveal_strlit("true");
    reveal_strlit("false");
    let quoted = seq!['"'] + field + seq!['"'];
    let word = if yes {
        seq!['t', 'r', 'u', 'e']
    } else {
        seq!['f', 'a', 'l', 's', 'e']
    };
    let tail = seq![':'] + word + rest;
    assert("\""@ + field + "\""@ =~= quoted);
    texts::lemma_divided(before, quoted, tail);
    assert(tail.skip(0) =~= tail);
    assert(text::trim_start_of(tail) == tail);
    assert(tail.take(1) =~= ":"@);
    let value = word + rest;
    assert(tail.skip(1) =~= value);
    assert(value.skip(0) =~= value);
    assert(text::trim_start_of(value) == value);
    if yes {
        assert(value.take(4) =~= "true"@);
    } else {
        assert(value.take(5) =~= "false"@);
        assert(value[0] != "true"@[0]);
        if text::begins(value, "true"@) {
            assert(value.take(4)[0] == "true"@[0]);
        }
    }
}

/// A crate is published exactly where its version is missing; one that is
/// there is left, and one that was taken back stops the release.
pub proof fn lemma_missing_is_published(
    crate_name: Seq<char>,
    version: Seq<char>,
    state: PublishedVersion,
)
    ensures
        release::publish_of(crate_name, version, state) is Publish <==> state
            == PublishedVersion::Missing,
        release::publish_of(crate_name, version, state) is Skip <==> state
            == PublishedVersion::Available,
        release::publish_of(crate_name, version, state) is Refuse <==> state
            == PublishedVersion::Yanked,
        release::publish_of(crate_name, version, state) matches PublishModel::Publish(_, args)
            ==> args.len() == 6 && args[0] == "publish"@ && args.contains("--locked"@) && args[4]
            == "-p"@ && args[5] == crate_name && args[2] == "--registry"@ && args[3]
            == "crates-io"@,
{
    let args = seq!["publish"@, "--locked"@, "--registry"@, "crates-io"@, "-p"@, crate_name];
    assert(args[1] == "--locked"@);
}

/// A crate can be built on once a line of the index lists its version and
/// does not take it back, and not before; until time runs out it is looked
/// for again.
pub proof fn lemma_index_decides(
    crate_name: Seq<char>,
    version: Seq<char>,
    look: Result<(u16, Seq<char>), Seq<char>>,
    out_of_time: bool,
)
    ensures
        release::wait_of(crate_name, version, look, out_of_time) is Resolvable <==> (
        look matches Ok((status, body)) && status == 200 && exists|i: int|
            0 <= i < text::lines_of(body).len() && release::string_field(
                #[trigger] text::lines_of(body)[i],
                "vers"@,
            ) == Some(version) && release::bool_field(text::lines_of(body)[i], "yanked"@) != Some(
                true,
            )),
        !(release::wait_of(crate_name, version, look, out_of_time) is Resolvable) ==> (
        release::wait_of(crate_name, version, look, out_of_time) is GiveUp <==> out_of_time),
{
    if let Ok((status, body)) = look {
        lemma_listed(text::lines_of(body), version, 0);
    }
}

proof fn lemma_listed(lines: Seq<Seq<char>>, version: Seq<char>, from: int)
    requires
        0 <= from,
    ensures
        release::listed_from(lines, version, from) <==> exists|i: int|
            from <= i < lines.len() && release::string_field(#[trigger] lines[i], "vers"@) == Some(
                version,
            ) && release::bool_field(lines[i], "yanked"@) != Some(true),
    decreases lines.len() - from,
{
    if from < lines.len() {
        lemma_listed(lines, version, from + 1);
    }
}

/// What can be asked of the helper, and nothing else.
pub proof fn lemma_requests(args: Seq<Seq<char>>)
    ensures
        release::request_of(args) matches Some(ReleaseModel::Publish { version }) ==> args == seq![
            "publish"@,
            version,
        ],
        release::request_of(args) is Some && release::request_of(args)->0 is DryRun ==> args
            == seq!["dry-run"@],
        release::request_of(args) matches Some(ReleaseModel::Validate { version, allow_dirty })
            ==> args == (if allow_dirty {
            seq!["validate"@, version, "--allow-dirty"@]
        } else {
            seq!["validate"@, version]
        }),
        release::request_of(args) matches Some(ReleaseModel::Probe { crate_name, version })
            ==> args == seq!["probe"@, crate_name, version],
{
    if args.len() == 1 {
        assert(args =~= seq![args[0]]);
    } else if args.len() == 2 {
        assert(args =~= seq![args[0], args[1]]);
    } else if args.len() == 3 {
        assert(args =~= seq![args[0], args[1], args[2]]);
    }
}

/// Each request is understood.
pub proof fn lemma_requests_are_understood(name: Seq<char>, version: Seq<char>)
    ensures
        release::request_of(seq!["publish"@, version]) == Some(ReleaseModel::Publish { version }),
        release::request_of(seq!["dry-run"@]) == Some(ReleaseModel::DryRun),
        release::request_of(seq!["validate"@, version]) == Some(
            ReleaseModel::Validate { version, allow_dirty: false },
        ),
        release::request_of(seq!["validate"@, version, "--allow-dirty"@]) == Some(
            ReleaseModel::Validate { version, allow_dirty: true },
        ),
        release::request_of(seq!["probe"@, name, version]) == Some(
            ReleaseModel::Probe { crate_name: name, version },
        ),
{
    reveal_strlit("publish");
    reveal_strlit("validate");
    reveal_strlit("probe");
    assert("publish"@[0] != "validate"@[0]);
    assert("probe"@[0] != "validate"@[0]);
}

/// The status of a response is the number on its last line, and its body all
/// before that line.
pub proof fn lemma_response_splits(
    url: Seq<char>,
    stdout: Seq<u8>,
    stderr: Seq<char>,
    body: Seq<char>,
    status: Seq<char>,
)
    requires
        vstd::utf8::valid_utf8(stdout),
        vstd::utf8::decode_utf8(stdout) == body + seq!['\n'] + status,
        text::all_digits(status),
        text::decimal(status) <= 65535,
    ensures
        release::response_of(url, true, stdout, stderr) == Ok::<(nat, Seq<char>), Seq<char>>(
            (text::decimal(status), body),
        ),
        release::response_of(url, false, stdout, stderr) is Err,
{
    reveal_strlit("\n");
    let output = body + seq!['\n'] + status;
    let n = body.len() as int;
    text::lemma_last_index_to(output, "\n"@, output.len() - 1);
    assert(output.subrange(n, n + 1) =~= "\n"@);
    assert(text::stands_at(output, "\n"@, n));
    assert forall|k: int| n < k implies !#[trigger] text::stands_at(output, "\n"@, k) by {
        if text::stands_at(output, "\n"@, k) {
            assert(output.subrange(k, k + 1)[0] == output[k]);
            assert(output[k] == status[k - n - 1]);
        }
    }
    assert(output.skip(n + 1) =~= status);
    assert(output.take(n) =~= body);
    texts::lemma_trimmed(status);
}

} // verus!
