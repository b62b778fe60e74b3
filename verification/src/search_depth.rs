//! The searches for resource files count down how deep they may go. This
//! shows that the count never cuts a search short: no directory is entered
//! twice, so no way down is longer than the tree has entries.

use vstd::prelude::*;

use crate::paths;
use crate::paths::{EntryModel, PathModel};
use crate::resources;
use crate::resources::{FilterResourceKind, WalkModel};

verus! {

/// A path without the way it is written.
pub open spec fn place(p: PathModel) -> PathModel {
    PathModel { spelled: seq![], ..p }
}

/// The places of a list of paths.
pub open spec fn places(list: Seq<PathModel>) -> Seq<PathModel> {
    Seq::new(list.len(), |i: int| place(list[i]))
}

/// Where the entries of a tree lead.
pub open spec fn ends(fs: Seq<EntryModel>) -> Seq<PathModel> {
    Seq::new(
        fs.len(),
        |i: int|
            match fs[i].canonical {
                Some(end) => place(paths::plain_path(end)),
                None => place(fs[i].path),
            },
    )
}

/// How many of them a search has not been in yet.
pub open spec fn room(fs: Seq<EntryModel>, visited: Seq<PathModel>) -> nat {
    ends(fs).to_set().difference(places(visited).to_set()).len()
}

proof fn lemma_entry_is_there(fs: Seq<EntryModel>, p: PathModel, i: int)
    requires
        0 <= i,
    ensures
        paths::entry_from(fs, p, i) matches Some(e) ==> exists|k: int|
            0 <= k < fs.len() && fs[k] == e,
    decreases fs.len() - i,
{
    if i < fs.len() && !paths::same_path(fs[i].path, p) {
        lemma_entry_is_there(fs, p, i + 1);
    }
}

proof fn lemma_listed(visited: Seq<PathModel>, p: PathModel)
    ensures
        places(visited).contains(place(p)) == paths::lists(visited, p),
{
    if paths::lists(visited, p) {
        let i = choose|i: int|
            0 <= i < visited.len() && paths::same_path(#[trigger] visited[i], p);
        assert(places(visited)[i] == place(p));
    }
    if places(visited).contains(place(p)) {
        let i = choose|i: int| 0 <= i < visited.len() && places(visited)[i] == place(p);
        assert(place(visited[i]) == place(p));
        assert(paths::same_path(visited[i], p));
    }
}

/// A place that a search enters was one that it had not been in.
proof fn lemma_entering(fs: Seq<EntryModel>, p: PathModel, visited: Seq<PathModel>)
    requires
        paths::plain_at(fs, p) is Some,
        !paths::lists(visited, paths::plain_at(fs, p)->0),
    ensures
        room(fs, visited) >= 1,
        room(fs, visited.push(paths::plain_at(fs, p)->0)) == room(fs, visited) - 1,
{
    let found = paths::plain_at(fs, p)->0;
    let end = place(found);
    let been = places(visited);
    lemma_listed(visited, found);
    assert(places(visited.push(found)) =~= been.push(end));
    lemma_entry_is_there(fs, p, 0);
    let e = paths::entry_at(fs, p)->0;
    let k = choose|k: int| 0 <= k < fs.len() && fs[k] == e;
    assert(ends(fs)[k] == end);
    assert(ends(fs).to_set().contains(end));
    vstd::seq_lib::seq_to_set_is_finite(ends(fs));
    let before = ends(fs).to_set().difference(been.to_set());
    let after = ends(fs).to_set().difference(been.push(end).to_set());
    vstd::set_lib::lemma_len_subset(before, ends(fs).to_set());
    assert(before.contains(end));
    assert(after =~= before.remove(end)) by {
        assert forall|q: PathModel| been.push(end).contains(q) <==> (been.contains(q) || q
            == end) by {
            if been.contains(q) {
                let j = choose|j: int| 0 <= j < been.len() && been[j] == q;
                assert(been.push(end)[j] == q);
            }
            assert(been.push(end)[been.len() as int] == end);
        }
    }
}

/// No search has been in more places than there are.
proof fn lemma_room_is_bounded(fs: Seq<EntryModel>, visited: Seq<PathModel>)
    ensures
        room(fs, visited) <= fs.len(),
{
    vstd::seq_lib::seq_to_set_is_finite(ends(fs));
    ends(fs).lemma_cardinality_of_set();
    vstd::set_lib::lemma_len_difference(ends(fs).to_set(), places(visited).to_set());
}

/// A search that is deep enough finds no more where it may go deeper, and has
/// no more places left than before.
pub open spec fn steady(fs: Seq<EntryModel>, before: WalkModel, a: WalkModel, b: WalkModel) -> bool {
    a == b && room(fs, a.visited) <= room(fs, before.visited)
}

proof fn lemma_globbed(
    fs: Seq<EntryModel>,
    boundary: PathModel,
    base: PathModel,
    dir: PathModel,
    names: Seq<Seq<char>>,
    i: int,
    pattern: Seq<char>,
    w: WalkModel,
    depth: nat,
)
    requires
        room(fs, w.visited) <= depth,
    ensures
        steady(
            fs,
            w,
            resources::globbed(fs, boundary, base, dir, names, i, pattern, w, depth),
            resources::globbed(fs, boundary, base, dir, names, i, pattern, w, depth + 1),
        ),
    decreases depth, names.len() - i,
{
    if 0 <= i < names.len() {
        let path = paths::plain_path(paths::below(dir, names[i]));
        match resources::contained(fs, boundary, path) {
            None => {
                lemma_globbed(fs, boundary, base, dir, names, i + 1, pattern, w, depth);
            },
            Some(canonical) => match paths::relative_to(path, base) {
                None => {
                    lemma_globbed(fs, boundary, base, dir, names, i + 1, pattern, w, depth);
                },
                Some(way) => {
                    let relative = resources::pattern_text(way);
                    let is_dir = paths::dir_at(fs, path);
                    let hit = resources::glob_verdict(pattern, relative) == Some(true) || (
                    is_dir && resources::glob_verdict(pattern, relative + "/"@) == Some(
                        true,
                    ));
                    let w1 = if hit {
                        resources::found(w, path)
                    } else {
                        w
                    };
                    if is_dir && !paths::lists(w1.visited, canonical) {
                        lemma_entering(fs, path, w1.visited);
                        let inner = resources::visible_at(fs, path, true);
                        let lower = (depth - 1) as nat;
                        lemma_globbed(
                            fs,
                            boundary,
                            base,
                            path,
                            inner,
                            0,
                            pattern,
                            resources::entered(w1, canonical),
                            lower,
                        );
                        let next = resources::globbed(
                            fs,
                            boundary,
                            base,
                            path,
                            inner,
                            0,
                            pattern,
                            resources::entered(w1, canonical),
                            lower,
                        );
                        lemma_globbed(fs, boundary, base, dir, names, i + 1, pattern, next, depth);
                    } else {
                        lemma_globbed(fs, boundary, base, dir, names, i + 1, pattern, w1, depth);
                    }
                },
            },
        }
    }
}

proof fn lemma_collected(
    fs: Seq<EntryModel>,
    boundary: PathModel,
    path: PathModel,
    kind: FilterResourceKind,
    w: WalkModel,
    depth: nat,
)
    requires
        room(fs, w.visited) <= depth,
    ensures
        steady(
            fs,
            w,
            resources::collected(fs, boundary, path, kind, w, depth),
            resources::collected(fs, boundary, path, kind, w, depth + 1),
        ),
    decreases depth, 0nat, 0int,
{
    match resources::contained(fs, boundary, path) {
        None => {},
        Some(canonical) => {
            if !paths::file_at(fs, path) && paths::dir_at(fs, path) && !paths::lists(w.visited, canonical) {
                lemma_entering(fs, path, w.visited);
                let w1 = resources::entered(w, canonical);
                let lower = (depth - 1) as nat;
                match kind {
                    FilterResourceKind::Extensions => {
                        lemma_extension_dir(fs, boundary, path, w1, lower);
                    },
                    FilterResourceKind::Skills => {
                        lemma_skill_dir(fs, boundary, path, path, w1, lower);
                    },
                    _ => {
                        lemma_below(
                            fs,
                            boundary,
                            path,
                            resources::visible_at(fs, path, false),
                            0,
                            kind,
                            w1,
                            lower,
                        );
                    },
                }
            }
        },
    }
}

proof fn lemma_below(
    fs: Seq<EntryModel>,
    boundary: PathModel,
    dir: PathModel,
    names: Seq<Seq<char>>,
    i: int,
    kind: FilterResourceKind,
    w: WalkModel,
    depth: nat,
)
    requires
        room(fs, w.visited) <= depth,
    ensures
        steady(
            fs,
            w,
            resources::collected_below(fs, boundary, dir, names, i, kind, w, depth),
            resources::collected_below(fs, boundary, dir, names, i, kind, w, depth + 1),
        ),
    decreases depth, 1nat, names.len() - i,
{
    if 0 <= i < names.len() {
        let path = paths::below(dir, names[i]);
        lemma_collected(fs, boundary, path, kind, w, depth);
        let next = resources::collected(fs, boundary, path, kind, w, depth);
        lemma_below(fs, boundary, dir, names, i + 1, kind, next, depth);
    }
}

proof fn lemma_from(
    fs: Seq<EntryModel>,
    boundary: PathModel,
    sources: Seq<PathModel>,
    i: int,
    kind: FilterResourceKind,
    w: WalkModel,
    depth: nat,
)
    requires
        room(fs, w.visited) <= depth,
    ensures
        steady(
            fs,
            w,
            resources::collected_from(fs, boundary, sources, i, kind, w, depth),
            resources::collected_from(fs, boundary, sources, i, kind, w, depth + 1),
        ),
    decreases depth, 1nat, sources.len() - i,
{
    if 0 <= i < sources.len() {
        lemma_collected(fs, boundary, sources[i], kind, w, depth);
        let next = resources::collected(fs, boundary, sources[i], kind, w, depth);
        lemma_from(fs, boundary, sources, i + 1, kind, next, depth);
    }
}

proof fn lemma_walk(
    fs: Seq<EntryModel>,
    boundary: PathModel,
    base: PathModel,
    entries: Seq<Seq<char>>,
    i: int,
    kind: FilterResourceKind,
    w: WalkModel,
    any: bool,
    depth: nat,
)
    requires
        room(fs, w.visited) <= depth,
    ensures
        steady(
            fs,
            w,
            resources::manifest_walk(fs, boundary, base, entries, i, kind, w, any, depth).0,
            resources::manifest_walk(fs, boundary, base, entries, i, kind, w, any, depth + 1).0,
        ),
        resources::manifest_walk(fs, boundary, base, entries, i, kind, w, any, depth).1 == resources::manifest_walk(
            fs,
            boundary,
            base,
            entries,
            i,
            kind,
            w,
            any,
            depth + 1,
        ).1,
    decreases depth, 2nat, entries.len() - i,
{
    if 0 <= i < entries.len() {
        if resources::override_pattern(entries[i]) {
            lemma_walk(fs, boundary, base, entries, i + 1, kind, w, any, depth);
        } else {
            let sources = resources::sources_of(fs, boundary, base, entries[i]);
            lemma_from(fs, boundary, sources, 0, kind, w, depth);
            let next = resources::collected_from(fs, boundary, sources, 0, kind, w, depth);
            lemma_walk(
                fs,
                boundary,
                base,
                entries,
                i + 1,
                kind,
                next,
                any || sources.len() > 0,
                depth,
            );
        }
    }
}

proof fn lemma_manifest(
    fs: Seq<EntryModel>,
    boundary: PathModel,
    base: PathModel,
    entries: Seq<Seq<char>>,
    kind: FilterResourceKind,
    visited: Seq<PathModel>,
    depth: nat,
)
    requires
        room(fs, visited) <= depth,
    ensures
        resources::manifest_resources(fs, boundary, base, entries, kind, visited, depth)
            == resources::manifest_resources(fs, boundary, base, entries, kind, visited, depth + 1),
        room(fs, resources::manifest_resources(fs, boundary, base, entries, kind, visited, depth).2) <= room(
            fs,
            visited,
        ),
    decreases depth, 3nat, 0int,
{
    lemma_walk(
        fs,
        boundary,
        base,
        entries,
        0,
        kind,
        WalkModel { out: seq![], visited },
        false,
        depth,
    );
}

proof fn lemma_extension_entry(
    fs: Seq<EntryModel>,
    boundary: PathModel,
    dir: PathModel,
    w: WalkModel,
    depth: nat,
)
    requires
        room(fs, w.visited) <= depth,
    ensures
        resources::extension_entry(fs, boundary, dir, w, depth) == resources::extension_entry(
            fs,
            boundary,
            dir,
            w,
            depth + 1,
        ),
        room(fs, resources::extension_entry(fs, boundary, dir, w, depth).0.visited) <= room(fs, w.visited),
    decreases depth, 4nat, 0int,
{
    match resources::listed_extensions(fs, dir) {
        Some(entries) => {
            lemma_manifest(
                fs,
                boundary,
                dir,
                entries,
                FilterResourceKind::Extensions,
                w.visited,
                depth,
            );
        },
        None => {},
    }
}

proof fn lemma_extension_dir(
    fs: Seq<EntryModel>,
    boundary: PathModel,
    dir: PathModel,
    w: WalkModel,
    depth: nat,
)
    requires
        room(fs, w.visited) <= depth,
    ensures
        steady(
            fs,
            w,
            resources::extension_dir(fs, boundary, dir, w, depth),
            resources::extension_dir(fs, boundary, dir, w, depth + 1),
        ),
    decreases depth, 6nat, 0int,
{
    lemma_extension_entry(fs, boundary, dir, w, depth);
    let (w1, done) = resources::extension_entry(fs, boundary, dir, w, depth);
    if !done {
        lemma_extensions_below(
            fs,
            boundary,
            dir,
            resources::visible_at(fs, dir, false),
            0,
            w1,
            depth,
        );
    }
}

proof fn lemma_extensions_below(
    fs: Seq<EntryModel>,
    boundary: PathModel,
    dir: PathModel,
    names: Seq<Seq<char>>,
    i: int,
    w: WalkModel,
    depth: nat,
)
    requires
        room(fs, w.visited) <= depth,
    ensures
        steady(
            fs,
            w,
            resources::extensions_below(fs, boundary, dir, names, i, w, depth),
            resources::extensions_below(fs, boundary, dir, names, i, w, depth + 1),
        ),
    decreases depth, 5nat, names.len() - i,
{
    if 0 <= i < names.len() {
        let path = paths::below(dir, names[i]);
        match resources::contained(fs, boundary, path) {
            Some(canonical) => {
                if paths::file_at(fs, path) {
                    if resources::resource_file(path, FilterResourceKind::Extensions) {
                        let next = resources::found(w, canonical);
                        lemma_extensions_below(fs, boundary, dir, names, i + 1, next, depth);
                    }
                } else if paths::dir_at(fs, path) && !paths::lists(w.visited, canonical) {
                    lemma_entering(fs, path, w.visited);
                    let w1 = resources::entered(w, canonical);
                    lemma_extension_entry(fs, boundary, path, w1, depth);
                    let next = resources::extension_entry(fs, boundary, path, w1, depth).0;
                    lemma_extensions_below(fs, boundary, dir, names, i + 1, next, depth);
                }
            },
            None => {},
        }
        lemma_extensions_below(fs, boundary, dir, names, i + 1, w, depth);
    }
}

proof fn lemma_skill_dir(
    fs: Seq<EntryModel>,
    boundary: PathModel,
    dir: PathModel,
    top: PathModel,
    w: WalkModel,
    depth: nat,
)
    requires
        room(fs, w.visited) <= depth,
    ensures
        steady(
            fs,
            w,
            resources::skill_dir(fs, boundary, dir, top, w, depth),
            resources::skill_dir(fs, boundary, dir, top, w, depth + 1),
        ),
    decreases depth, 6nat, 0int,
{
    lemma_skills_below(fs, boundary, dir, top, resources::visible_at(fs, dir, false), 0, w, depth);
}

proof fn lemma_skills_below(
    fs: Seq<EntryModel>,
    boundary: PathModel,
    dir: PathModel,
    top: PathModel,
    names: Seq<Seq<char>>,
    i: int,
    w: WalkModel,
    depth: nat,
)
    requires
        room(fs, w.visited) <= depth,
    ensures
        steady(
            fs,
            w,
            resources::skills_below(fs, boundary, dir, top, names, i, w, depth),
            resources::skills_below(fs, boundary, dir, top, names, i, w, depth + 1),
        ),
    decreases depth, 5nat, names.len() - i,
{
    if 0 <= i < names.len() {
        let path = paths::below(dir, names[i]);
        match resources::contained(fs, boundary, path) {
            Some(canonical) => {
                if paths::file_at(fs, path) {
                    if paths::same_path(dir, top) && resources::resource_file(
                        path,
                        FilterResourceKind::Skills,
                    ) {
                        let next = resources::found(w, canonical);
                        lemma_skills_below(fs, boundary, dir, top, names, i + 1, next, depth);
                    }
                } else if paths::dir_at(fs, path) && !paths::lists(w.visited, canonical) {
                    lemma_entering(fs, path, w.visited);
                    let w1 = resources::entered(w, canonical);
                    let lower = (depth - 1) as nat;
                    lemma_skill_dir(fs, boundary, path, top, w1, lower);
                    let next = resources::skill_dir(fs, boundary, path, top, w1, lower);
                    lemma_skills_below(fs, boundary, dir, top, names, i + 1, next, depth);
                }
            },
            None => {},
        }
        lemma_skills_below(fs, boundary, dir, top, names, i + 1, w, depth);
    }
}

/// A search for resource files with the depth that `resource_inventory`
/// gives it, the size of the tree, finds what it would find at any greater
/// depth.
pub proof fn lemma_inventory_is_complete(
    fs: Seq<EntryModel>,
    boundary: PathModel,
    defaults: Seq<PathModel>,
    kind: FilterResourceKind,
    w: WalkModel,
    more: nat,
)
    ensures
        resources::collected_from(fs, boundary, defaults, 0, kind, w, fs.len() + more) == resources::collected_from(
            fs,
            boundary,
            defaults,
            0,
            kind,
            w,
            fs.len(),
        ),
    decreases more,
{
    if more > 0 {
        let less = (more - 1) as nat;
        lemma_inventory_is_complete(fs, boundary, defaults, kind, w, less);
        lemma_room_is_bounded(fs, w.visited);
        lemma_from(fs, boundary, defaults, 0, kind, w, fs.len() + less);
    }
}

/// What a manifest selects with a search as deep as the size of the tree is
/// what it selects at any greater depth.
pub proof fn lemma_manifest_is_complete(
    fs: Seq<EntryModel>,
    boundary: PathModel,
    base: PathModel,
    entries: Seq<Seq<char>>,
    kind: FilterResourceKind,
    visited: Seq<PathModel>,
    more: nat,
)
    ensures
        resources::manifest_resources(fs, boundary, base, entries, kind, visited, fs.len() + more)
            == resources::manifest_resources(fs, boundary, base, entries, kind, visited, fs.len()),
    decreases more,
{
    if more > 0 {
        let less = (more - 1) as nat;
        lemma_manifest_is_complete(fs, boundary, base, entries, kind, visited, less);
        lemma_room_is_bounded(fs, visited);
        lemma_manifest(fs, boundary, base, entries, kind, visited, fs.len() + less);
    }
}

/// A glob search as deep as the size of the tree finds what it would find at
/// any greater depth.
pub proof fn lemma_glob_is_complete(
    fs: Seq<EntryModel>,
    boundary: PathModel,
    base: PathModel,
    dir: PathModel,
    names: Seq<Seq<char>>,
    pattern: Seq<char>,
    w: WalkModel,
    more: nat,
)
    ensures
        resources::globbed(fs, boundary, base, dir, names, 0, pattern, w, fs.len() + more) == resources::globbed(
            fs,
            boundary,
            base,
            dir,
            names,
            0,
            pattern,
            w,
            fs.len(),
        ),
    decreases more,
{
    if more > 0 {
        let less = (more - 1) as nat;
        lemma_glob_is_complete(fs, boundary, base, dir, names, pattern, w, less);
        lemma_room_is_bounded(fs, w.visited);
        lemma_globbed(fs, boundary, base, dir, names, 0, pattern, w, fs.len() + less);
    }
}

} // verus!
