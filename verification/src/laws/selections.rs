//! Which resource files patterns select.

use vstd::prelude::*;

use crate::paths;
use crate::paths::{EntryModel, PathModel};
use crate::resources;
use crate::resources::FilterResourceKind;

verus! {

/// Whether some pattern that begins with `mark` matches `path` with what
/// stands behind the mark. A pattern behind `+` or `-` is taken letter for
/// letter, one behind `!` is a glob.
pub open spec fn hit_behind(
    fs: Seq<EntryModel>,
    path: PathModel,
    patterns: Seq<Seq<char>>,
    root: PathModel,
    mark: char,
    kind: FilterResourceKind,
) -> bool {
    exists|i: int|
        0 <= i < patterns.len() && (#[trigger] patterns[i]).len() > 0 && patterns[i][0] == mark
            && resources::matched(fs, path, root, patterns[i].skip(1), mark != '!', kind)
}

/// Whether a pattern begins with none of the marks.
pub open spec fn unmarked(pattern: Seq<char>) -> bool {
    pattern.len() > 0 ==> pattern[0] != '+' && pattern[0] != '-' && pattern[0] != '!'
}

/// Whether some pattern without a mark matches `path`.
pub open spec fn hit_unmarked(
    fs: Seq<EntryModel>,
    path: PathModel,
    patterns: Seq<Seq<char>>,
    root: PathModel,
    kind: FilterResourceKind,
) -> bool {
    exists|i: int|
        0 <= i < patterns.len() && unmarked(#[trigger] patterns[i]) && resources::matched(
            fs,
            path,
            root,
            patterns[i],
            false,
            kind,
        )
}

/// Whether some pattern has no mark.
pub open spec fn some_unmarked(patterns: Seq<Seq<char>>) -> bool {
    exists|i: int| 0 <= i < patterns.len() && unmarked(#[trigger] patterns[i])
}

proof fn lemma_hits(
    fs: Seq<EntryModel>,
    path: PathModel,
    patterns: Seq<Seq<char>>,
    root: PathModel,
    kind: FilterResourceKind,
)
    ensures
        resources::selected(fs, path, patterns, root, kind) <==> (((!some_unmarked(patterns)
            || hit_unmarked(fs, path, patterns, root, kind)) && !hit_behind(
            fs,
            path,
            patterns,
            root,
            '!',
            kind,
        )) || hit_behind(fs, path, patterns, root, '+', kind)) && !hit_behind(
            fs,
            path,
            patterns,
            root,
            '-',
            kind,
        ),
{
    assert forall|i: int| 0 <= i < patterns.len() implies unmarked(#[trigger] patterns[i])
        == (resources::mode_and_target(patterns[i]).0 == resources::PatternMode::Include) by {}
    assert(some_unmarked(patterns) == !resources::no_includes(patterns)) by {
        if some_unmarked(patterns) {
            let i = choose|i: int| 0 <= i < patterns.len() && unmarked(#[trigger] patterns[i]);
            assert(resources::mode_and_target(patterns[i]).0 == resources::PatternMode::Include);
        }
    }
    assert(hit_unmarked(fs, path, patterns, root, kind) == resources::some_pattern(
        fs,
        path,
        patterns,
        root,
        resources::PatternMode::Include,
        false,
        kind,
    )) by {
        if hit_unmarked(fs, path, patterns, root, kind) {
            let i = choose|i: int|
                0 <= i < patterns.len() && unmarked(#[trigger] patterns[i])
                    && resources::matched(fs, path, root, patterns[i], false, kind);
            assert(resources::mode_and_target(patterns[i]) == (
                resources::PatternMode::Include,
                patterns[i],
            ));
        }
    }
    assert(hit_behind(fs, path, patterns, root, '!', kind) == resources::some_pattern(
        fs,
        path,
        patterns,
        root,
        resources::PatternMode::Exclude,
        false,
        kind,
    )) by {
        if hit_behind(fs, path, patterns, root, '!', kind) {
            let i = choose|i: int|
                0 <= i < patterns.len() && (#[trigger] patterns[i]).len() > 0 && patterns[i][0]
                    == '!' && resources::matched(fs, path, root, patterns[i].skip(1), false, kind);
            assert(resources::mode_and_target(patterns[i]) == (
                resources::PatternMode::Exclude,
                patterns[i].skip(1),
            ));
        }
    }
    assert(hit_behind(fs, path, patterns, root, '+', kind) == resources::some_pattern(
        fs,
        path,
        patterns,
        root,
        resources::PatternMode::ForceInclude,
        true,
        kind,
    )) by {
        if hit_behind(fs, path, patterns, root, '+', kind) {
            let i = choose|i: int|
                0 <= i < patterns.len() && (#[trigger] patterns[i]).len() > 0 && patterns[i][0]
                    == '+' && resources::matched(fs, path, root, patterns[i].skip(1), true, kind);
            assert(resources::mode_and_target(patterns[i]) == (
                resources::PatternMode::ForceInclude,
                patterns[i].skip(1),
            ));
        }
    }
    assert(hit_behind(fs, path, patterns, root, '-', kind) == resources::some_pattern(
        fs,
        path,
        patterns,
        root,
        resources::PatternMode::ForceExclude,
        true,
        kind,
    )) by {
        if hit_behind(fs, path, patterns, root, '-', kind) {
            let i = choose|i: int|
                0 <= i < patterns.len() && (#[trigger] patterns[i]).len() > 0 && patterns[i][0]
                    == '-' && resources::matched(fs, path, root, patterns[i].skip(1), true, kind);
            assert(resources::mode_and_target(patterns[i]) == (
                resources::PatternMode::ForceExclude,
                patterns[i].skip(1),
            ));
        }
    }
}

proof fn lemma_chosen(
    fs: Seq<EntryModel>,
    all: Seq<PathModel>,
    n: int,
    patterns: Seq<Seq<char>>,
    root: PathModel,
    kind: FilterResourceKind,
)
    requires
        0 <= n <= all.len(),
    ensures
        paths::strictly_sorted(resources::selection(fs, all, n, patterns, root, kind)),
        forall|q: PathModel| #[trigger]
            resources::selection(fs, all, n, patterns, root, kind).contains(q) ==> all.contains(q)
                && resources::selected(fs, q, patterns, root, kind),
        forall|k: int|
            0 <= k < n && resources::selected(fs, #[trigger] all[k], patterns, root, kind)
                ==> paths::lists(resources::selection(fs, all, n, patterns, root, kind), all[k]),
    decreases n,
{
    if n > 0 {
        lemma_chosen(fs, all, n - 1, patterns, root, kind);
        let rest = resources::selection(fs, all, n - 1, patterns, root, kind);
        let out = resources::selection(fs, all, n, patterns, root, kind);
        paths::lemma_with_path(rest, all[n - 1]);
        assert(all.contains(all[n - 1]));
        assert forall|k: int|
            0 <= k < n && resources::selected(
                fs,
                #[trigger] all[k],
                patterns,
                root,
                kind,
            ) implies paths::lists(out, all[k]) by {
            if k < n - 1 {
                lemma_still_listed(rest, out, all[k]);
            }
        }
    }
}

/// A path that a list has is in every list that keeps what that one holds.
pub proof fn lemma_still_listed(list: Seq<PathModel>, more: Seq<PathModel>, p: PathModel)
    requires
        paths::lists(list, p),
        forall|q: PathModel| #[trigger] list.contains(q) ==> more.contains(q),
    ensures
        paths::lists(more, p),
{
    let i = choose|i: int| 0 <= i < list.len() && paths::same_path(#[trigger] list[i], p);
    assert(list.contains(list[i]));
    let j = choose|j: int| 0 <= j < more.len() && more[j] == list[i];
    assert(paths::same_path(more[j], p));
}

/// A selection takes files from the list that it is made of, sorted and each
/// once.
pub proof fn lemma_selection_adds_nothing(
    fs: Seq<EntryModel>,
    all: Seq<PathModel>,
    patterns: Seq<Seq<char>>,
    root: PathModel,
    kind: FilterResourceKind,
)
    ensures
        paths::strictly_sorted(
            resources::selection(fs, all, all.len() as int, patterns, root, kind),
        ),
        forall|q: PathModel| #[trigger]
            resources::selection(fs, all, all.len() as int, patterns, root, kind).contains(q)
                ==> all.contains(q),
{
    lemma_chosen(fs, all, all.len() as int, patterns, root, kind);
}

/// Whatever the other patterns are, a file that a `!` pattern matches is in
/// the selection only where a `+` pattern forces it in.
pub proof fn lemma_excluded_is_left_out(
    fs: Seq<EntryModel>,
    all: Seq<PathModel>,
    patterns: Seq<Seq<char>>,
    root: PathModel,
    kind: FilterResourceKind,
    path: PathModel,
)
    requires
        hit_behind(fs, path, patterns, root, '!', kind),
        !hit_behind(fs, path, patterns, root, '+', kind),
    ensures
        !resources::selection(fs, all, all.len() as int, patterns, root, kind).contains(path),
{
    lemma_chosen(fs, all, all.len() as int, patterns, root, kind);
    lemma_hits(fs, path, patterns, root, kind);
}

/// A file that a `-` pattern names is never in the selection, even where a
/// `+` pattern names it too.
pub proof fn lemma_forced_out_is_left_out(
    fs: Seq<EntryModel>,
    all: Seq<PathModel>,
    patterns: Seq<Seq<char>>,
    root: PathModel,
    kind: FilterResourceKind,
    path: PathModel,
)
    requires
        hit_behind(fs, path, patterns, root, '-', kind),
    ensures
        !resources::selection(fs, all, all.len() as int, patterns, root, kind).contains(path),
{
    lemma_chosen(fs, all, all.len() as int, patterns, root, kind);
    lemma_hits(fs, path, patterns, root, kind);
}

/// A file that a `+` pattern names and no `-` pattern does is in the
/// selection, whatever the other patterns are.
pub proof fn lemma_forced_in_is_taken(
    fs: Seq<EntryModel>,
    all: Seq<PathModel>,
    patterns: Seq<Seq<char>>,
    root: PathModel,
    kind: FilterResourceKind,
    k: int,
)
    requires
        0 <= k < all.len(),
        hit_behind(fs, all[k], patterns, root, '+', kind),
        !hit_behind(fs, all[k], patterns, root, '-', kind),
    ensures
        paths::lists(
            resources::selection(fs, all, all.len() as int, patterns, root, kind),
            all[k],
        ),
{
    lemma_chosen(fs, all, all.len() as int, patterns, root, kind);
    lemma_hits(fs, all[k], patterns, root, kind);
}

/// A file that no pattern with a mark matches is in the selection where a
/// pattern without a mark matches it, or where there is no such pattern; and
/// nowhere else.
pub proof fn lemma_included_is_taken(
    fs: Seq<EntryModel>,
    all: Seq<PathModel>,
    patterns: Seq<Seq<char>>,
    root: PathModel,
    kind: FilterResourceKind,
    k: int,
)
    requires
        0 <= k < all.len(),
        !hit_behind(fs, all[k], patterns, root, '+', kind),
        !hit_behind(fs, all[k], patterns, root, '-', kind),
        !hit_behind(fs, all[k], patterns, root, '!', kind),
    ensures
        hit_unmarked(fs, all[k], patterns, root, kind) || !some_unmarked(patterns) ==> paths::lists(
            resources::selection(fs, all, all.len() as int, patterns, root, kind),
            all[k],
        ),
        some_unmarked(patterns) && !hit_unmarked(fs, all[k], patterns, root, kind)
            ==> !resources::selection(fs, all, all.len() as int, patterns, root, kind).contains(
            all[k],
        ),
{
    lemma_chosen(fs, all, all.len() as int, patterns, root, kind);
    lemma_hits(fs, all[k], patterns, root, kind);
}

} // verus!
