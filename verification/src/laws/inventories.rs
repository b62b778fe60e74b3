//! Which files of a package are its resources.

use vstd::prelude::*;

use crate::json;
use crate::laws::selections;
use crate::paths;
use crate::paths::{EntryModel, PathModel};
use crate::resources;
use crate::resources::{FilterResourceKind, WalkModel};
use crate::text;

verus! {

proof fn lemma_dot_last(stem: Seq<char>, extension: Seq<char>)
    requires
        !extension.contains('.'),
    ensures
        text::last_index_of(stem + seq!['.'] + extension, "."@) == Some(stem.len() as int),
{
    reveal_strlit(".");
    let s = stem + seq!['.'] + extension;
    let n = stem.len() as int;
    text::lemma_last_index_to(s, "."@, s.len() - 1);
    assert(s.subrange(n, n + 1) =~= "."@);
    assert(text::stands_at(s, "."@, n));
    let k = text::last_index_of(s, "."@)->0;
    if k > n {
        assert(s.subrange(k, k + 1)[0] == s[k]);
        assert(extension.contains(extension[k - n - 1]));
    }
}

/// A file is a resource of its kind by what stands behind the last dot of its
/// name: `js` or `ts` for extensions, `md` for skills and prompts, `json` for
/// themes. A name that begins with its only dot has nothing behind it.
pub proof fn lemma_extension_decides(
    path: PathModel,
    stem: Seq<char>,
    extension: Seq<char>,
)
    requires
        paths::name_of(path) == Some(stem + seq!['.'] + extension),
        !extension.contains('.'),
    ensures
        resources::resource_file(path, FilterResourceKind::Extensions) <==> stem.len() > 0 && (
        extension == seq!['j', 's'] || extension == seq!['t', 's']),
        resources::resource_file(path, FilterResourceKind::Skills) <==> stem.len() > 0 && extension
            == seq!['m', 'd'],
        resources::resource_file(path, FilterResourceKind::Prompts) <==> stem.len() > 0 && extension
            == seq!['m', 'd'],
        resources::resource_file(path, FilterResourceKind::Themes) <==> stem.len() > 0 && extension
            == seq!['j', 's', 'o', 'n'],
        stem.len() > 0 ==> resources::stem_of(stem + seq!['.'] + extension) == stem,
{
    reveal_strlit("js");
    reveal_strlit("ts");
    reveal_strlit("md");
    reveal_strlit("json");
    assert("js"@ =~= seq!['j', 's']);
    assert("ts"@ =~= seq!['t', 's']);
    assert("md"@ =~= seq!['m', 'd']);
    assert("json"@ =~= seq!['j', 's', 'o', 'n']);
    let name = stem + seq!['.'] + extension;
    lemma_dot_last(stem, extension);
    assert(name.skip(stem.len() as int + 1) =~= extension);
    assert(name.take(stem.len() as int) =~= stem);
}

/// A file without a dot in its name is no resource.
pub proof fn lemma_no_extension_no_resource(path: PathModel, kind: FilterResourceKind)
    requires
        paths::name_of(path) matches Some(name) ==> !name.contains('.'),
    ensures
        !resources::resource_file(path, kind),
{
    reveal_strlit(".");
    if let Some(name) = paths::name_of(path) {
        text::lemma_last_index_to(name, "."@, name.len() - 1);
        if let Some(k) = text::last_index_of(name, "."@) {
            assert(name.subrange(k, k + 1)[0] == name[k]);
            assert(name.contains(name[k]));
        }
    }
}

/// Whether the patterns from `i` on that match `path` are none.
pub open spec fn silent_from(
    fs: Seq<EntryModel>,
    path: PathModel,
    patterns: Seq<Seq<char>>,
    i: int,
    root: PathModel,
    kind: FilterResourceKind,
) -> bool {
    forall|j: int| i <= j < patterns.len() ==> !speaks(fs, path, #[trigger] patterns[j], root, kind)
}

/// Whether a pattern matches `path`: one behind `+` or `-` letter for letter,
/// any other as a glob.
pub open spec fn speaks(
    fs: Seq<EntryModel>,
    path: PathModel,
    pattern: Seq<char>,
    root: PathModel,
    kind: FilterResourceKind,
) -> bool {
    if pattern.len() > 0 && (pattern[0] == '+' || pattern[0] == '-') {
        resources::matched(fs, path, root, pattern.skip(1), true, kind)
    } else if pattern.len() > 0 && pattern[0] == '!' {
        resources::matched(fs, path, root, pattern.skip(1), false, kind)
    } else {
        resources::matched(fs, path, root, pattern, false, kind)
    }
}

/// Where patterns are applied one after another, the last one that matches a
/// file decides: behind `!` and `-` it turns the file off, otherwise on. A
/// file that none matches stays as it is.
pub proof fn lemma_last_match_decides(
    fs: Seq<EntryModel>,
    path: PathModel,
    patterns: Seq<Seq<char>>,
    root: PathModel,
    kind: FilterResourceKind,
    start: bool,
    i: int,
)
    requires
        -1 <= i < patterns.len(),
        i >= 0 ==> speaks(fs, path, patterns[i], root, kind),
        silent_from(fs, path, patterns, i + 1, root, kind),
    ensures
        resources::toggled(fs, path, patterns, patterns.len() as int, root, kind, start) == (if i
            >= 0 {
            !(patterns[i].len() > 0 && (patterns[i][0] == '!' || patterns[i][0] == '-'))
        } else {
            start
        }),
{
    lemma_toggled(fs, path, patterns, patterns.len() as int, root, kind, start, i);
}

proof fn lemma_toggled(
    fs: Seq<EntryModel>,
    path: PathModel,
    patterns: Seq<Seq<char>>,
    n: int,
    root: PathModel,
    kind: FilterResourceKind,
    start: bool,
    i: int,
)
    requires
        -1 <= i < n <= patterns.len() || (i == -1 && n == 0),
        i >= 0 ==> speaks(fs, path, patterns[i], root, kind),
        silent_from(fs, path, patterns, i + 1, root, kind),
    ensures
        resources::toggled(fs, path, patterns, n, root, kind, start) == (if i >= 0 {
            !(patterns[i].len() > 0 && (patterns[i][0] == '!' || patterns[i][0] == '-'))
        } else {
            start
        }),
    decreases n,
{
    if n > 0 {
        if n - 1 > i {
            assert(!speaks(fs, path, patterns[n - 1], root, kind));
            lemma_toggled(fs, path, patterns, n - 1, root, kind, start, i);
        }
    }
}

proof fn lemma_turned_on(
    fs: Seq<EntryModel>,
    all: Seq<PathModel>,
    n: int,
    patterns: Seq<Seq<char>>,
    root: PathModel,
    kind: FilterResourceKind,
    initial: Seq<PathModel>,
)
    requires
        0 <= n <= all.len(),
    ensures
        ({
            let out = resources::turned_on(fs, all, n, patterns, root, kind, initial);
            &&& paths::strictly_sorted(out)
            &&& forall|q: PathModel| #[trigger]
                out.contains(q) ==> all.contains(q) && resources::toggled(
                    fs,
                    q,
                    patterns,
                    patterns.len() as int,
                    root,
                    kind,
                    paths::lists(initial, q),
                )
            &&& forall|k: int|
                0 <= k < n && resources::toggled(
                    fs,
                    #[trigger] all[k],
                    patterns,
                    patterns.len() as int,
                    root,
                    kind,
                    paths::lists(initial, all[k]),
                ) ==> paths::lists(out, all[k])
        }),
    decreases n,
{
    if n > 0 {
        lemma_turned_on(fs, all, n - 1, patterns, root, kind, initial);
        let rest = resources::turned_on(fs, all, n - 1, patterns, root, kind, initial);
        let out = resources::turned_on(fs, all, n, patterns, root, kind, initial);
        paths::lemma_with_path(rest, all[n - 1]);
        assert(all.contains(all[n - 1]));
        assert forall|k: int|
            0 <= k < n && resources::toggled(
                fs,
                #[trigger] all[k],
                patterns,
                patterns.len() as int,
                root,
                kind,
                paths::lists(initial, all[k]),
            ) implies paths::lists(out, all[k]) by {
            if k < n - 1 {
                selections::lemma_still_listed(rest, out, all[k]);
            }
        }
    }
}

proof fn lemma_and_others(
    base: Seq<PathModel>,
    list: Seq<PathModel>,
    n: int,
    all: Seq<PathModel>,
)
    requires
        paths::strictly_sorted(base),
        0 <= n <= list.len(),
    ensures
        ({
            let out = resources::and_others(base, list, n, all);
            &&& paths::strictly_sorted(out)
            &&& forall|q: PathModel| #[trigger] base.contains(q) ==> out.contains(q)
            &&& forall|q: PathModel| #[trigger]
                out.contains(q) ==> base.contains(q) || (list.contains(q) && !paths::lists(all, q))
            &&& forall|k: int|
                0 <= k < n && !paths::lists(all, #[trigger] list[k]) ==> paths::lists(out, list[k])
        }),
    decreases n,
{
    if n > 0 {
        lemma_and_others(base, list, n - 1, all);
        let rest = resources::and_others(base, list, n - 1, all);
        let out = resources::and_others(base, list, n, all);
        paths::lemma_with_path(rest, list[n - 1]);
        assert(list.contains(list[n - 1]));
        assert forall|k: int| 0 <= k < n && !paths::lists(all, #[trigger] list[k]) implies paths::lists(
        out, list[k]) by {
            if k < n - 1 {
                selections::lemma_still_listed(rest, out, list[k]);
            }
        }
    }
}

/// The files that a change of a package's resources starts from.
pub open spec fn loaded_before(
    fs: Seq<EntryModel>,
    root: PathModel,
    current: Seq<PathModel>,
    kind: FilterResourceKind,
) -> Seq<PathModel> {
    let files = resources::files_among(fs, current, current.len() as int);
    if files.len() == 0 && resources::some_dir(fs, current) {
        resources::inventory(fs, resources::resolved(fs, root), current, kind)
    } else {
        files
    }
}

/// Where a change is made to the resources of a package, the last pattern that
/// matches one of its files decides: behind `!` and `-` the file goes,
/// otherwise it comes. A file that none matches stays in or out.
pub proof fn lemma_change_goes_by_the_last_match(
    fs: Seq<EntryModel>,
    root: PathModel,
    current: Seq<PathModel>,
    patterns: Seq<Seq<char>>,
    kind: FilterResourceKind,
    path: PathModel,
    i: int,
)
    requires
        patterns.len() > 0,
        resources::inventory(fs, resources::resolved(fs, root), current, kind).contains(path),
        -1 <= i < patterns.len(),
        i >= 0 ==> speaks(fs, path, patterns[i], resources::resolved(fs, root), kind),
        silent_from(fs, path, patterns, i + 1, resources::resolved(fs, root), kind),
    ensures
        ({
            let out = resources::changed(fs, root, current, patterns, kind);
            let off = patterns[i].len() > 0 && (patterns[i][0] == '!' || patterns[i][0] == '-');
            &&& i >= 0 && !off ==> paths::lists(out, path)
            &&& i >= 0 && off ==> !out.contains(path)
            &&& i < 0 && paths::lists(loaded_before(fs, root, current, kind), path)
                ==> paths::lists(out, path)
            &&& i < 0 && !paths::lists(loaded_before(fs, root, current, kind), path)
                ==> !out.contains(path)
        }),
{
    let top = resources::resolved(fs, root);
    let all = resources::inventory(fs, top, current, kind);
    let initial = loaded_before(fs, root, current, kind);
    let on = resources::turned_on(fs, all, all.len() as int, patterns, top, kind, initial);
    let out = resources::changed(fs, root, current, patterns, kind);
    lemma_turned_on(fs, all, all.len() as int, patterns, top, kind, initial);
    lemma_and_others(on, initial, initial.len() as int, all);
    lemma_last_match_decides(fs, path, patterns, top, kind, paths::lists(initial, path), i);
    let k = choose|k: int| 0 <= k < all.len() && all[k] == path;
    assert(all[k] == path);
    assert(paths::same_path(all[k], path));
    assert(paths::lists(all, path));
    if paths::lists(on, path) {
        selections::lemma_still_listed(on, out, path);
    }
}

/// A change without patterns changes nothing.
pub proof fn lemma_no_change(
    fs: Seq<EntryModel>,
    root: PathModel,
    current: Seq<PathModel>,
    kind: FilterResourceKind,
)
    ensures
        resources::changed(fs, root, current, seq![], kind) == current,
{
}

/// A setting without patterns keeps the resources of a package that loads by
/// itself and none of one that does not; an empty list of patterns keeps
/// none.
pub proof fn lemma_setting_without_patterns(
    fs: Seq<EntryModel>,
    root: PathModel,
    defaults: Seq<PathModel>,
    autoload: Option<bool>,
    kind: FilterResourceKind,
)
    ensures
        autoload != Some(false) ==> resources::filtered(fs, root, defaults, None, autoload, kind)
            == defaults,
        resources::filtered(fs, root, defaults, None, Some(false), kind).len() == 0,
        resources::filtered(fs, root, defaults, Some(seq![]), autoload, kind).len() == 0,
{
    let top = resources::resolved(fs, root);
    let all = resources::inventory(fs, top, defaults, kind);
    let none = Seq::<Seq<char>>::empty();
    lemma_turned_on(fs, all, all.len() as int, none, top, kind, seq![]);
    let out = resources::turned_on(fs, all, all.len() as int, none, top, kind, seq![]);
    if out.len() > 0 {
        assert(out.contains(out[0]));
        assert(!paths::lists(Seq::<PathModel>::empty(), out[0]));
    }
}

/// A setting with patterns takes, from the files of a package that loads by
/// itself, none that a `!` pattern matches and no `+` pattern forces in, and
/// none that a `-` pattern names.
pub proof fn lemma_setting_leaves_out(
    fs: Seq<EntryModel>,
    root: PathModel,
    defaults: Seq<PathModel>,
    patterns: Seq<Seq<char>>,
    autoload: Option<bool>,
    kind: FilterResourceKind,
    path: PathModel,
)
    requires
        autoload != Some(false),
        ({
            let top = resources::resolved(fs, root);
            ||| selections::hit_behind(fs, path, patterns, top, '-', kind)
            ||| selections::hit_behind(fs, path, patterns, top, '!', kind)
                && !selections::hit_behind(fs, path, patterns, top, '+', kind)
        }),
    ensures
        !resources::filtered(fs, root, defaults, Some(patterns), autoload, kind).contains(path),
{
    let top = resources::resolved(fs, root);
    let all = resources::inventory(fs, top, defaults, kind);
    if selections::hit_behind(fs, path, patterns, top, '-', kind) {
        selections::lemma_forced_out_is_left_out(fs, all, patterns, top, kind, path);
    } else {
        selections::lemma_excluded_is_left_out(fs, all, patterns, top, kind, path);
    }
}

/// A setting with patterns takes every file of a package that loads by itself
/// which a `+` pattern names, or which a pattern without a mark matches and
/// none with a mark does; and every file that none matches where each has a
/// mark.
pub proof fn lemma_setting_takes(
    fs: Seq<EntryModel>,
    root: PathModel,
    defaults: Seq<PathModel>,
    patterns: Seq<Seq<char>>,
    autoload: Option<bool>,
    kind: FilterResourceKind,
    k: int,
)
    requires
        patterns.len() > 0,
        autoload != Some(false),
        ({
            let top = resources::resolved(fs, root);
            let all = resources::inventory(fs, top, defaults, kind);
            &&& 0 <= k < all.len()
            &&& !selections::hit_behind(fs, all[k], patterns, top, '-', kind)
            &&& {
                ||| selections::hit_behind(fs, all[k], patterns, top, '+', kind)
                ||| !selections::hit_behind(fs, all[k], patterns, top, '!', kind) && (
                selections::hit_unmarked(fs, all[k], patterns, top, kind)
                    || !selections::some_unmarked(patterns))
            }
        }),
    ensures
        paths::lists(
            resources::filtered(fs, root, defaults, Some(patterns), autoload, kind),
            resources::inventory(fs, resources::resolved(fs, root), defaults, kind)[k],
        ),
{
    let top = resources::resolved(fs, root);
    let all = resources::inventory(fs, top, defaults, kind);
    if selections::hit_behind(fs, all[k], patterns, top, '+', kind) {
        selections::lemma_forced_in_is_taken(fs, all, patterns, top, kind, k);
    } else {
        selections::lemma_included_is_taken(fs, all, patterns, top, kind, k);
    }
}

/// Of a package that does not load by itself, a setting takes a file exactly
/// where the last pattern that matches it turns it on.
pub proof fn lemma_setting_turns_on(
    fs: Seq<EntryModel>,
    root: PathModel,
    defaults: Seq<PathModel>,
    patterns: Seq<Seq<char>>,
    kind: FilterResourceKind,
    k: int,
    i: int,
)
    requires
        -1 <= i < patterns.len(),
        ({
            let top = resources::resolved(fs, root);
            let all = resources::inventory(fs, top, defaults, kind);
            &&& 0 <= k < all.len()
            &&& i >= 0 ==> speaks(fs, all[k], patterns[i], top, kind)
            &&& silent_from(fs, all[k], patterns, i + 1, top, kind)
        }),
    ensures
        ({
            let all = resources::inventory(fs, resources::resolved(fs, root), defaults, kind);
            let on = i >= 0 && !(patterns[i].len() > 0 && (patterns[i][0] == '!' || patterns[i][0]
                == '-'));
            let out = resources::filtered(fs, root, defaults, Some(patterns), Some(false), kind);
            (on ==> paths::lists(out, all[k])) && (!on ==> !out.contains(all[k]))
        }),
{
    let top = resources::resolved(fs, root);
    let all = resources::inventory(fs, top, defaults, kind);
    let none = Seq::<PathModel>::empty();
    lemma_turned_on(fs, all, all.len() as int, patterns, top, kind, none);
    assert(!paths::lists(none, all[k]));
    lemma_last_match_decides(fs, all[k], patterns, top, kind, false, i);
}

proof fn lemma_overrides(entries: Seq<Seq<char>>, n: int)
    requires
        0 <= n <= entries.len(),
    ensures
        ({
            let out = resources::overrides_among(entries, n);
            &&& forall|i: int|
                0 <= i < n && !selections::unmarked(#[trigger] entries[i]) ==> out.contains(
                    entries[i],
                )
            &&& forall|k: int|
                0 <= k < out.len() ==> !selections::unmarked(#[trigger] out[k]) && entries.contains(
                    out[k],
                )
        }),
    decreases n,
{
    if n > 0 {
        lemma_overrides(entries, n - 1);
        let rest = resources::overrides_among(entries, n - 1);
        let out = resources::overrides_among(entries, n);
        assert(entries.contains(entries[n - 1]));
        assert forall|i: int|
            0 <= i < n && !selections::unmarked(#[trigger] entries[i]) implies out.contains(
            entries[i],
        ) by {
            if i < n - 1 {
                assert(rest.contains(entries[i]));
                let k = choose|k: int| 0 <= k < rest.len() && rest[k] == entries[i];
                assert(out[k] == entries[i]);
            } else {
                assert(out[rest.len() as int] == entries[i]);
            }
        }
    }
}

proof fn lemma_same_hits(
    fs: Seq<EntryModel>,
    path: PathModel,
    entries: Seq<Seq<char>>,
    root: PathModel,
    mark: char,
    kind: FilterResourceKind,
)
    requires
        mark == '+' || mark == '-' || mark == '!',
    ensures
        selections::hit_behind(
            fs,
            path,
            resources::overrides_among(entries, entries.len() as int),
            root,
            mark,
            kind,
        ) == selections::hit_behind(fs, path, entries, root, mark, kind),
{
    let n = entries.len() as int;
    let out = resources::overrides_among(entries, n);
    lemma_overrides(entries, n);
    if selections::hit_behind(fs, path, entries, root, mark, kind) {
        let i = choose|i: int|
            0 <= i < entries.len() && (#[trigger] entries[i]).len() > 0 && entries[i][0] == mark
                && resources::matched(fs, path, root, entries[i].skip(1), mark != '!', kind);
        assert(!selections::unmarked(entries[i]));
        assert(out.contains(entries[i]));
        let k = choose|k: int| 0 <= k < out.len() && out[k] == entries[i];
        assert(out[k].len() > 0);
    }
    if selections::hit_behind(fs, path, out, root, mark, kind) {
        let k = choose|k: int|
            0 <= k < out.len() && (#[trigger] out[k]).len() > 0 && out[k][0] == mark
                && resources::matched(fs, path, root, out[k].skip(1), mark != '!', kind);
        assert(entries.contains(out[k]));
        let i = choose|i: int| 0 <= i < entries.len() && entries[i] == out[k];
        assert(entries[i].len() > 0);
    }
}

/// A file that a `!` entry of a manifest matches is a resource only where a
/// `+` entry forces it in; one that a `-` entry names is none.
pub proof fn lemma_manifest_leaves_out(
    fs: Seq<EntryModel>,
    root: PathModel,
    manifest: Option<Seq<char>>,
    key: Seq<char>,
    kind: FilterResourceKind,
    path: PathModel,
)
    requires
        resources::keyed(manifest, key) is Some,
        ({
            let entries = json::strings_in(resources::keyed(manifest, key)->0);
            let top = resources::resolved(fs, root);
            ||| selections::hit_behind(fs, path, entries, top, '-', kind)
            ||| selections::hit_behind(fs, path, entries, top, '!', kind)
                && !selections::hit_behind(fs, path, entries, top, '+', kind)
        }),
    ensures
        !resources::resources_of(fs, root, manifest, key, kind).contains(path),
{
    let entries = json::strings_in(resources::keyed(manifest, key)->0);
    let top = resources::resolved(fs, root);
    let none = Seq::<PathModel>::empty();
    let (w, any) = resources::manifest_walk(
        fs,
        root,
        root,
        entries,
        0,
        kind,
        WalkModel { out: none, visited: none },
        false,
        fs.len(),
    );
    let patterns = resources::overrides_among(entries, entries.len() as int);
    lemma_same_hits(fs, path, entries, top, '+', kind);
    lemma_same_hits(fs, path, entries, top, '-', kind);
    lemma_same_hits(fs, path, entries, top, '!', kind);
    if selections::hit_behind(fs, path, entries, top, '-', kind) {
        selections::lemma_forced_out_is_left_out(fs, w.out, patterns, top, kind, path);
    } else {
        selections::lemma_excluded_is_left_out(fs, w.out, patterns, top, kind, path);
    }
}

/// What the entries of a manifest name is a resource unless an entry with a
/// mark takes it away: entries with a mark add no condition of their own.
pub proof fn lemma_manifest_takes(
    fs: Seq<EntryModel>,
    boundary: PathModel,
    base: PathModel,
    entries: Seq<Seq<char>>,
    kind: FilterResourceKind,
    visited: Seq<PathModel>,
    depth: nat,
    k: int,
)
    requires
        ({
            let (w, _) = resources::manifest_walk(
                fs,
                boundary,
                base,
                entries,
                0,
                kind,
                WalkModel { out: seq![], visited },
                false,
                depth,
            );
            let top = resources::resolved(fs, base);
            &&& 0 <= k < w.out.len()
            &&& !selections::hit_behind(fs, w.out[k], entries, top, '-', kind)
            &&& !selections::hit_behind(fs, w.out[k], entries, top, '!', kind)
                || selections::hit_behind(fs, w.out[k], entries, top, '+', kind)
        }),
    ensures
        ({
            let (w, any) = resources::manifest_walk(
                fs,
                boundary,
                base,
                entries,
                0,
                kind,
                WalkModel { out: seq![], visited },
                false,
                depth,
            );
            let found = resources::manifest_resources(
                fs,
                boundary,
                base,
                entries,
                kind,
                visited,
                depth,
            );
            paths::lists(found.0, w.out[k]) && found.1 == any
        }),
{
    let (w, any) = resources::manifest_walk(
        fs,
        boundary,
        base,
        entries,
        0,
        kind,
        WalkModel { out: seq![], visited },
        false,
        depth,
    );
    let top = resources::resolved(fs, base);
    let path = w.out[k];
    let patterns = resources::overrides_among(entries, entries.len() as int);
    lemma_overrides(entries, entries.len() as int);
    lemma_same_hits(fs, path, entries, top, '+', kind);
    lemma_same_hits(fs, path, entries, top, '-', kind);
    lemma_same_hits(fs, path, entries, top, '!', kind);
    if selections::hit_behind(fs, path, entries, top, '+', kind) {
        selections::lemma_forced_in_is_taken(fs, w.out, patterns, top, kind, k);
    } else {
        assert(!selections::some_unmarked(patterns));
        selections::lemma_included_is_taken(fs, w.out, patterns, top, kind, k);
    }
}

/// An entry with a mark names no files itself.
pub proof fn lemma_marked_entries_name_nothing(
    fs: Seq<EntryModel>,
    boundary: PathModel,
    base: PathModel,
    entries: Seq<Seq<char>>,
    i: int,
    kind: FilterResourceKind,
    w: WalkModel,
    any: bool,
    depth: nat,
)
    requires
        0 <= i < entries.len(),
    ensures
        !selections::unmarked(entries[i]) ==> resources::manifest_walk(
            fs,
            boundary,
            base,
            entries,
            i,
            kind,
            w,
            any,
            depth,
        ) == resources::manifest_walk(fs, boundary, base, entries, i + 1, kind, w, any, depth),
        selections::unmarked(entries[i]) ==> resources::manifest_walk(
            fs,
            boundary,
            base,
            entries,
            i,
            kind,
            w,
            any,
            depth,
        ) == resources::manifest_walk(
            fs,
            boundary,
            base,
            entries,
            i + 1,
            kind,
            resources::collected_from(
                fs,
                boundary,
                resources::sources_of(fs, boundary, base, entries[i]),
                0,
                kind,
                w,
                depth,
            ),
            any || resources::sources_of(fs, boundary, base, entries[i]).len() > 0,
            depth,
        ),
{
}

/// An entry with `*` or `?` is a glob; any other names one path below the
/// package, in which links may not lead out of it, and an absolute one none.
pub proof fn lemma_entry_names(
    fs: Seq<EntryModel>,
    boundary: PathModel,
    base: PathModel,
    entry: Seq<char>,
)
    ensures
        entry.contains('*') || entry.contains('?') ==> resources::sources_of(
            fs,
            boundary,
            base,
            entry,
        ) == resources::glob_paths(fs, boundary, base, entry),
        !entry.contains('*') && !entry.contains('?') ==> {
            let out = resources::sources_of(fs, boundary, base, entry);
            &&& out.len() <= 1
            &&& paths::path_of(base.platform, text::trim_of(entry)).absolute() ==> out.len() == 0
            &&& out.len() == 1 ==> {
                &&& paths::plain_at(fs, base) is Some
                &&& out[0] == paths::plain_path(
                    paths::below(paths::plain_at(fs, base)->0, text::trim_of(entry)),
                )
                &&& resources::contained(fs, boundary, out[0]) is Some
            }
        },
{
}

/// A path counts only where, with every link followed, it lies within its
/// boundary; it is then that place.
pub proof fn lemma_contained_is_within(
    fs: Seq<EntryModel>,
    boundary: PathModel,
    candidate: PathModel,
)
    ensures
        resources::contained(fs, boundary, candidate) matches Some(found) ==> {
            &&& paths::plain_at(fs, candidate) == Some(found)
            &&& paths::plain_at(fs, boundary) matches Some(top) && paths::lies_in(found, top)
        },
        paths::plain_at(fs, candidate) is None ==> resources::contained(fs, boundary, candidate)
            is None,
{
}

proof fn lemma_visible(names: Seq<Seq<char>>, n: int, all: bool)
    requires
        0 <= n <= names.len(),
    ensures
        ({
            let out = resources::visible_names(names, n, all);
            &&& forall|k: int|
                0 <= k < out.len() ==> names.contains(#[trigger] out[k]) && !(out[k].len() > 0
                    && out[k][0] == '.') && (all || out[k] != "node_modules"@)
            &&& forall|i: int|
                0 <= i < n && !((#[trigger] names[i]).len() > 0 && names[i][0] == '.') && (all
                    || names[i] != "node_modules"@) ==> out.contains(names[i])
        }),
    decreases n,
{
    if n > 0 {
        lemma_visible(names, n - 1, all);
        let rest = resources::visible_names(names, n - 1, all);
        let out = resources::visible_names(names, n, all);
        assert(names.contains(names[n - 1]));
        assert forall|i: int|
            0 <= i < n && !((#[trigger] names[i]).len() > 0 && names[i][0] == '.') && (all
                || names[i] != "node_modules"@) implies out.contains(names[i]) by {
            if i < n - 1 {
                assert(rest.contains(names[i]));
                let k = choose|k: int| 0 <= k < rest.len() && rest[k] == names[i];
                assert(out[k] == names[i]);
            } else {
                assert(out[rest.len() as int] == names[i]);
            }
        }
    }
}

/// Every entry of a directory is looked at but the hidden ones, which begin
/// with a dot, and `node_modules`; a glob looks into that too.
pub proof fn lemma_hidden_is_passed_over(names: Seq<Seq<char>>, all: bool, name: Seq<char>)
    ensures
        resources::visible_names(names, names.len() as int, all).contains(name)
            <==> names.contains(name) && !(name.len() > 0 && name[0] == '.') && (all || name
            != "node_modules"@),
{
    let n = names.len() as int;
    lemma_visible(names, n, all);
    let out = resources::visible_names(names, n, all);
    if out.contains(name) {
        let k = choose|k: int| 0 <= k < out.len() && out[k] == name;
        assert(names.contains(out[k]));
    }
    if names.contains(name) {
        let i = choose|i: int| 0 <= i < names.len() && names[i] == name;
        assert(names[i] == name);
    }
}

/// The `rpi` section of a manifest comes before its `pi` section, and that
/// before the manifest itself.
pub proof fn lemma_sections_come_in_order(doc: Seq<char>, key: Seq<char>)
    ensures
        (json::get_of(doc, "rpi"@) matches Some(own) && json::get_of(own, key) is Some)
            ==> resources::keyed(Some(doc), key) == json::get_of(
            json::get_of(doc, "rpi"@)->0,
            key,
        ),
        (json::get_of(doc, "rpi"@) matches Some(own) ==> json::get_of(own, key) is None) && (
        json::get_of(doc, "pi"@) matches Some(other) && json::get_of(other, key) is Some)
            ==> resources::keyed(Some(doc), key) == json::get_of(json::get_of(doc, "pi"@)->0, key),
        (json::get_of(doc, "rpi"@) matches Some(own) ==> json::get_of(own, key) is None) && (
        json::get_of(doc, "pi"@) matches Some(other) ==> json::get_of(other, key) is None)
            ==> resources::keyed(Some(doc), key) == json::get_of(doc, key),
{
}

/// A package whose manifest says nothing of a kind has the files of the
/// directory of that name.
pub proof fn lemma_directory_by_default(
    fs: Seq<EntryModel>,
    root: PathModel,
    manifest: Option<Seq<char>>,
    key: Seq<char>,
    kind: FilterResourceKind,
)
    requires
        resources::keyed(manifest, key) is None,
    ensures
        resources::resources_of(fs, root, manifest, key, kind) == resources::inventory(
            fs,
            root,
            seq![paths::below(root, key)],
            kind,
        ),
        resources::keyed(None, key) is None,
{
}

/// A file counts as a resource, under the place where it lies with every link
/// followed, exactly where its name says so and it lies within the package.
pub proof fn lemma_file_counts_by_name(
    fs: Seq<EntryModel>,
    boundary: PathModel,
    path: PathModel,
    kind: FilterResourceKind,
    w: WalkModel,
    depth: nat,
)
    requires
        paths::file_at(fs, path),
        paths::strictly_sorted(w.out),
    ensures
        ({
            let after = resources::collected(fs, boundary, path, kind, w, depth);
            match resources::contained(fs, boundary, path) {
                Some(place) => if resources::resource_file(path, kind) {
                    paths::lists(after.out, place)
                } else {
                    after == w
                },
                None => after == w,
            }
        }),
{
    if let Some(place) = resources::contained(fs, boundary, path) {
        paths::lemma_with_path(w.out, place);
    }
}

/// A directory with a `SKILL.md` is that one skill, whatever else it holds.
pub proof fn lemma_skill_file_is_the_skill(
    fs: Seq<EntryModel>,
    boundary: PathModel,
    dir: PathModel,
    top: PathModel,
    w: WalkModel,
    depth: nat,
)
    requires
        paths::file_at(fs, paths::below(dir, "SKILL.md"@)),
        resources::contained(fs, boundary, paths::below(dir, "SKILL.md"@)) is Some,
        paths::strictly_sorted(w.out),
    ensures
        ({
            let place = resources::contained(fs, boundary, paths::below(dir, "SKILL.md"@))->0;
            let after = resources::skill_dir(fs, boundary, dir, top, w, depth);
            &&& paths::lists(after.out, place)
            &&& after.visited == w.visited
            &&& forall|q: PathModel| #[trigger]
                after.out.contains(q) ==> q == place || w.out.contains(q)
        }),
{
    paths::lemma_with_path(
        w.out,
        resources::contained(fs, boundary, paths::below(dir, "SKILL.md"@))->0,
    );
}

/// Without a `SKILL.md`, the files of a directory of skills count at the top
/// alone.
pub proof fn lemma_skills_below_the_top(
    fs: Seq<EntryModel>,
    boundary: PathModel,
    dir: PathModel,
    top: PathModel,
    names: Seq<Seq<char>>,
    i: int,
    w: WalkModel,
    depth: nat,
)
    requires
        0 <= i < names.len(),
        paths::file_at(fs, paths::below(dir, names[i])),
    ensures
        resources::skills_below(fs, boundary, dir, top, names, i, w, depth)
            == resources::skills_below(
            fs,
            boundary,
            dir,
            top,
            names,
            i + 1,
            match resources::contained(fs, boundary, paths::below(dir, names[i])) {
                Some(place) => if paths::same_path(dir, top) && resources::resource_file(
                    paths::below(dir, names[i]),
                    FilterResourceKind::Skills,
                ) {
                    WalkModel { out: paths::with_path(w.out, place), ..w }
                } else {
                    w
                },
                None => w,
            },
            depth,
        ),
{
}

/// A directory of an extension is its `index.ts` or, where it has none, its
/// `index.js`.
pub proof fn lemma_index_is_the_extension(
    fs: Seq<EntryModel>,
    boundary: PathModel,
    dir: PathModel,
)
    ensures
        ({
            let ts = paths::below(dir, "index.ts"@);
            let js = paths::below(dir, "index.js"@);
            let own = paths::file_at(fs, ts) && resources::contained(fs, boundary, ts) is Some;
            let other = paths::file_at(fs, js) && resources::contained(fs, boundary, js) is Some;
            &&& own ==> resources::index_file(fs, boundary, dir) == resources::contained(
                fs,
                boundary,
                ts,
            )
            &&& !own && other ==> resources::index_file(fs, boundary, dir) == resources::contained(
                fs,
                boundary,
                js,
            )
            &&& !own && !other ==> resources::index_file(fs, boundary, dir) is None
        }),
{
}

/// A pattern matches a file letter for letter where it is the file's way from
/// the package or its whole path, and for a skill also where it is that of
/// the directory that holds it. As a glob it also matches these, and the
/// file's name.
pub proof fn lemma_what_a_pattern_matches(
    fs: Seq<EntryModel>,
    path: PathModel,
    root: PathModel,
    pattern: Seq<char>,
    kind: FilterResourceKind,
)
    requires
        pattern.len() > 0,
        resources::plain_pattern(pattern) == pattern,
    ensures
        ({
            let top = resources::resolved(fs, root);
            let way = paths::relative_to(path, top);
            &&& (way matches Some(r) && resources::pattern_text(r) == pattern) ==> resources::matched(
                fs,
                path,
                root,
                pattern,
                true,
                kind,
            )
            &&& resources::pattern_text(path) == pattern ==> resources::matched(
                fs,
                path,
                root,
                pattern,
                true,
                kind,
            )
            &&& (way matches Some(r) && resources::glob_verdict(pattern, resources::pattern_text(r))
                == Some(true)) ==> resources::matched(fs, path, root, pattern, false, kind)
            &&& (paths::name_of(path) matches Some(name) && !name.contains('\\')
                && resources::glob_verdict(pattern, name) == Some(true)) ==> resources::matched(
                fs,
                path,
                root,
                pattern,
                false,
                kind,
            )
            &&& kind == FilterResourceKind::Skills && (paths::parent_of(path) matches Some(parent)
                && paths::relative_to(parent, top) matches Some(r) && resources::pattern_text(r)
                == pattern) ==> resources::matched(fs, path, root, pattern, true, kind)
            &&& resources::matched(fs, path, root, pattern, true, kind) ==> resources::matched(
                fs,
                path,
                root,
                pattern,
                false,
                kind,
            )
        }),
{
}

/// Where a pattern neither is one of the texts of a file nor matches one as a
/// glob, it does not match the file.
pub proof fn lemma_what_a_pattern_passes_over(
    fs: Seq<EntryModel>,
    path: PathModel,
    root: PathModel,
    pattern: Seq<char>,
    exact: bool,
    kind: FilterResourceKind,
)
    requires
        ({
            let top = resources::resolved(fs, root);
            let plain = resources::plain_pattern(pattern);
            let misses = |s: Seq<char>|
                (exact || resources::glob_verdict(plain, s) != Some(true)) && s != plain
                    && resources::plain_pattern(s) != plain;
            &&& misses(seq![])
            &&& misses(resources::pattern_text(path))
            &&& paths::relative_to(path, top) matches Some(r) ==> misses(resources::pattern_text(r))
            &&& exact || (paths::name_of(path) matches Some(name) ==> misses(name))
            &&& kind == FilterResourceKind::Skills ==> (paths::parent_of(path) matches Some(parent)
                ==> misses(resources::pattern_text(parent)) && (paths::relative_to(
                parent,
                top,
            ) matches Some(r) ==> misses(resources::pattern_text(r))))
        }),
    ensures
        !resources::matched(fs, path, root, pattern, exact, kind),
{
}

} // verus!
