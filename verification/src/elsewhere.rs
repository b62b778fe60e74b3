//! What the user's settings resolve to does not depend on what lies below the
//! working directory: a project that is not trusted cannot change it by the
//! files that it holds.

use vstd::prelude::*;

use crate::discovery;
use crate::discovery::{DiscoveryModel, LookupModel, SettingModel};
use crate::git_source;
use crate::json;
use crate::npm_command;
use crate::npm_command::Platform;
use crate::packages;
use crate::packages::PackageModel;
use crate::paths;
use crate::paths::{EntryModel, PathModel};
use crate::resources;
use crate::resources::{FilterModel, FilterResourceKind, PatternMode, WalkModel};
use crate::runtime_plan;
use crate::runtime_plan::{FailureModel, PlanModel, Workspace};
use crate::search_depth;
use crate::stores;
use crate::stores::{PlacesModel, ResolveScope, SourceModel};
use crate::text;

verus! {

/// Whether `p` is `root` or lies below it, both in their plain form.
#[verifier::opaque]
pub open spec fn inside(p: PathModel, root: PathModel) -> bool {
    paths::lies_in(paths::plain_path(p), paths::plain_path(root))
}

/// Whether the plain form of a path is plain.
#[verifier::opaque]
pub open spec fn once(p: PathModel) -> bool {
    paths::same_path(paths::plain_path(paths::plain_path(p)), paths::plain_path(p))
}

/// Whether `p` has nothing to do with `cwd`: neither lies inside the other.
pub open spec fn apart(p: PathModel, cwd: PathModel) -> bool {
    !paths::nowhere(p) && once(p) && !inside(p, cwd) && !inside(cwd, p)
}

/// Whether `p`, and what it leads to, has nothing to do with `cwd`.
pub open spec fn clear(fs: Seq<EntryModel>, p: PathModel, cwd: PathModel) -> bool {
    apart(p, cwd) && (paths::canonical_at(fs, p) matches Some(c) ==> apart(c, cwd))
}

/// Whether `p` is clear, as it stands and in its plain form.
pub open spec fn clear_both(fs: Seq<EntryModel>, p: PathModel, cwd: PathModel) -> bool {
    clear(fs, p, cwd) && clear(fs, paths::plain_path(p), cwd)
}

/// Whether two pictures of the file system agree on everything that does not
/// lie inside `cwd`.
pub open spec fn alike(a: Seq<EntryModel>, b: Seq<EntryModel>, cwd: PathModel) -> bool {
    forall|p: PathModel|
        #![trigger paths::entry_at(a, p)]
        #![trigger paths::entry_at(b, p)]
        !inside(p, cwd) ==> paths::entry_at(a, p) == paths::entry_at(b, p)
}

/// Whether `c` can be what `p` leads to with its links followed: it is of the
/// same system and leads nowhere else.
#[verifier::opaque]
pub open spec fn sound_end(fs: Seq<EntryModel>, p: PathModel, c: PathModel) -> bool {
    &&& c.platform == p.platform
    &&& once(c)
    &&& paths::canonical_at(fs, c) matches Some(d) ==> d == c
    &&& paths::canonical_at(fs, paths::plain_path(c)) matches Some(d) ==> d == c
}

/// Whether a picture of the file system is one that a system can show: what
/// paths lead to leads nowhere else, and the names in a directory are
/// relative.
pub open spec fn sound_tree(fs: Seq<EntryModel>) -> bool {
    &&& forall|p: PathModel|
        (#[trigger] paths::canonical_at(fs, p)) matches Some(c) ==> sound_end(fs, p, c)
    &&& forall|p: PathModel, i: int|
        0 <= i < paths::children_at(fs, p).len() ==> paths::path_of(
            p.platform,
            #[trigger] paths::children_at(fs, p)[i],
        ).relative()
}

/// Whether no link leads from `cwd`, or from above it, to a place that has
/// nothing to do with it.
pub open spec fn stays(fs: Seq<EntryModel>, cwd: PathModel) -> bool {
    forall|p: PathModel|
        (#[trigger] paths::canonical_at(fs, p)) matches Some(c) ==> (inside(p, cwd) || inside(
            cwd,
            p,
        ) ==> inside(c, cwd) || inside(cwd, c))
}

/// What the two pictures have in common. On Windows a path that is not
/// absolute may still start at a root, so that links out of `cwd` matter.
pub open spec fn calm(a: Seq<EntryModel>, b: Seq<EntryModel>, cwd: PathModel) -> bool {
    &&& alike(a, b, cwd)
    &&& sound_tree(a)
    &&& cwd.platform == Platform::Windows ==> stays(a, cwd) && stays(b, cwd)
}

proof fn lemma_plain_grown(p: PathModel, more: Seq<Seq<char>>)
    ensures
        paths::same_path(
            paths::plain_path((PathModel { parts: p.parts + more, ..p })),
            (PathModel { parts: paths::plain_path(p).parts + more, ..paths::plain_path(p) }),
        ),
{
    let grown = PathModel { parts: p.parts + more, ..p };
    assert(paths::plain_path(grown).parts =~= paths::plain_path(p).parts + more);
}

/// A path that is written otherwise has the same plain form and lies in the
/// same places.
proof fn lemma_same_plain(p: PathModel, q: PathModel)
    requires
        paths::same_path(p, q),
    ensures
        paths::same_path(paths::plain_path(p), paths::plain_path(q)),
        paths::steps_of(p) == paths::steps_of(q),
        paths::folded(p) == paths::folded(q),
{
    assert(paths::folded(p) =~= paths::folded(q));
}

proof fn lemma_grown_lies_in(p: PathModel, more: Seq<Seq<char>>)
    ensures
        paths::lies_in((PathModel { parts: p.parts + more, ..p }), p),
{
    let grown = PathModel { parts: p.parts + more, ..p };
    assert(paths::steps_of(grown) =~= paths::steps_of(p) + more);
    assert(paths::folded(grown).take(paths::folded(p).len() as int) =~= paths::folded(p));
}

proof fn lemma_lies_in_one(q: PathModel, p: PathModel, c: PathModel)
    requires
        paths::lies_in(q, p),
        paths::lies_in(q, c),
    ensures
        paths::lies_in(p, c) || paths::lies_in(c, p),
{
    let (fq, fp, fc) = (paths::folded(q), paths::folded(p), paths::folded(c));
    assert forall|i: int| 0 <= i < fp.len() implies fq[i] == fp[i] by {
        assert(fq.take(fp.len() as int)[i] == fp[i]);
    }
    assert forall|i: int| 0 <= i < fc.len() implies fq[i] == fc[i] by {
        assert(fq.take(fc.len() as int)[i] == fc[i]);
    }
    if fp.len() <= fc.len() {
        assert(fc.take(fp.len() as int) =~= fp);
    } else {
        assert(fp.take(fc.len() as int) =~= fc);
    }
}

proof fn lemma_lies_in_through(q: PathModel, p: PathModel, c: PathModel)
    requires
        paths::lies_in(q, p),
        paths::lies_in(p, c),
    ensures
        paths::lies_in(q, c),
{
    let (fq, fp, fc) = (paths::folded(q), paths::folded(p), paths::folded(c));
    assert forall|i: int| 0 <= i < fc.len() implies fq[i] == fc[i] by {
        assert(fq.take(fp.len() as int)[i] == fp[i]);
        assert(fp.take(fc.len() as int)[i] == fc[i]);
    }
    assert(fq.take(fc.len() as int) =~= fc);
}

/// What lies inside a path that has nothing to do with `cwd` has nothing to
/// do with it either.
proof fn lemma_apart_inside(q: PathModel, p: PathModel, cwd: PathModel)
    requires
        apart(p, cwd),
        inside(q, p),
        once(q),
        !paths::nowhere(q),
    ensures
        apart(q, cwd),
{
    reveal(inside);
    let (pq, pp, pc) = (paths::plain_path(q), paths::plain_path(p), paths::plain_path(cwd));
    if inside(q, cwd) {
        lemma_lies_in_one(pq, pp, pc);
    }
    if inside(cwd, q) {
        lemma_lies_in_through(pc, pq, pp);
    }
}

proof fn lemma_within_is_inside(q: PathModel, p: PathModel)
    requires
        paths::within(q, p),
    ensures
        inside(q, p),
        once(p) ==> once(q),
        !paths::nowhere(p) ==> !paths::nowhere(q),
{
    reveal(once);
    reveal(inside);
    let n = p.parts.len() as int;
    let more = q.parts.skip(n);
    assert(q.parts =~= p.parts + more) by {
        assert forall|i: int| 0 <= i < n implies q.parts[i] == p.parts[i] by {
            assert(q.parts.take(n)[i] == p.parts[i]);
        }
    }
    let grown = PathModel { parts: p.parts + more, ..p };
    let pp = paths::plain_path(p);
    let wide = PathModel { parts: pp.parts + more, ..pp };
    assert(paths::same_path(q, grown));
    lemma_same_plain(q, grown);
    lemma_plain_grown(p, more);
    lemma_plain_grown(pp, more);
    lemma_grown_lies_in(pp, more);
    lemma_same_plain(paths::plain_path(q), wide);
}

proof fn lemma_apart_within(q: PathModel, p: PathModel, cwd: PathModel)
    requires
        apart(p, cwd),
        paths::within(q, p),
    ensures
        apart(q, cwd),
{
    lemma_within_is_inside(q, p);
    lemma_apart_inside(q, p, cwd);
}

/// The plain form of a path is a path as long as the path is.
proof fn lemma_plain_is_somewhere(p: PathModel)
    ensures
        paths::nowhere(paths::plain_path(p)) == paths::nowhere(p),
{
    reveal_strlit("\\\\");
    reveal_strlit("\\\\?\\");
    reveal_strlit("\\\\?\\UNC\\");
}

proof fn lemma_apart_plain(p: PathModel, cwd: PathModel)
    requires
        apart(p, cwd),
    ensures
        apart(paths::plain_path(p), cwd),
{
    reveal(once);
    reveal(inside);
    lemma_plain_is_somewhere(p);
    let pp = paths::plain_path(p);
    lemma_same_plain(paths::plain_path(pp), pp);
}

/// Where a path is plain, one that differs in what follows its prefix is too.
proof fn lemma_plain_stays(p: PathModel, q: PathModel)
    requires
        paths::same_path(paths::plain_path(p), p),
        q.platform == p.platform,
        q.prefix == p.prefix,
    ensures
        paths::same_path(paths::plain_path(q), q),
{
    reveal_strlit("\\\\");
    reveal_strlit("\\\\?\\");
    reveal_strlit("\\\\?\\UNC\\");
    if p.platform == Platform::Windows {
        if let Some(rest) = text::after_prefix(p.prefix, "\\\\?\\UNC\\"@) {
            assert(paths::plain_path(p).prefix.len() != p.prefix.len());
        } else if let Some(rest) = text::after_prefix(p.prefix, "\\\\?\\"@) {
            assert(paths::plain_path(p).prefix.len() != p.prefix.len());
        }
    }
}

proof fn lemma_apart_join(p: PathModel, rest: PathModel, cwd: PathModel)
    requires
        apart(p, cwd),
        rest.relative(),
    ensures
        apart(paths::joined_path(p, rest), cwd),
{
    paths::lemma_join_stays_within(p, rest);
    lemma_apart_within(paths::joined_path(p, rest), p, cwd);
}

/// Whether a text starts neither with a separator nor with a drive.
pub open spec fn harmless(s: Seq<char>) -> bool {
    s.len() > 0 && s[0] != '/' && s[0] != '\\' && (s.len() < 2 || s[1] != ':')
}

proof fn lemma_begins(s: Seq<char>, prefix: Seq<char>)
    requires
        text::begins(s, prefix),
        prefix.len() > 0,
    ensures
        s.len() > 0,
        s[0] == prefix[0],
{
    assert(s.take(prefix.len() as int)[0] == s[0]);
}

/// A text that starts neither with a separator nor with a drive spells a
/// relative path on every system.
proof fn lemma_harmless(platform: Platform, s: Seq<char>)
    requires
        harmless(s),
    ensures
        paths::path_of(platform, s).relative(),
{
    if platform == Platform::Windows {
        reveal(paths::windows_start);
        reveal_strlit("\\\\");
        reveal_strlit("\\\\?\\");
        reveal_strlit("\\\\.\\");
        paths::lemma_turned_slash(s, 0);
        if s.len() > 1 {
            paths::lemma_turned_slash(s, 1);
        }
        let slashed = text::replaced(s, "/"@, "\\"@);
        if text::begins(s, "\\\\?\\"@) {
            lemma_begins(s, "\\\\?\\"@);
        }
        if text::begins(slashed, "\\\\.\\"@) {
            lemma_begins(slashed, "\\\\.\\"@);
        }
        if text::begins(slashed, "\\\\"@) {
            lemma_begins(slashed, "\\\\"@);
        }
        assert(paths::windows_start(s) == paths::plain_start(slashed));
    }
}

proof fn lemma_apart_below(p: PathModel, s: Seq<char>, cwd: PathModel)
    requires
        apart(p, cwd),
        harmless(s) || paths::path_of(p.platform, s).relative(),
    ensures
        apart(paths::below(p, s), cwd),
{
    if harmless(s) {
        lemma_harmless(p.platform, s);
    }
    lemma_apart_join(p, paths::path_of(p.platform, s), cwd);
}

/// A directory above a path that is not inside `cwd` is not either.
proof fn lemma_above_not_inside(p: PathModel, n: int, cwd: PathModel)
    requires
        0 <= n <= p.parts.len(),
        !inside(p, cwd),
    ensures
        !inside(paths::head_of(p, n), cwd),
{
    reveal(inside);
    let q = paths::head_of(p, n);
    assert(p.parts.take(q.parts.len() as int) =~= q.parts);
    lemma_within_is_inside(p, q);
    if inside(q, cwd) {
        lemma_lies_in_through(
            paths::plain_path(p),
            paths::plain_path(q),
            paths::plain_path(cwd),
        );
    }
}

/// Whether every name is relative.
pub open spec fn relative_names(platform: Platform, names: Seq<Seq<char>>) -> bool {
    forall|i: int|
        0 <= i < names.len() ==> paths::path_of(platform, #[trigger] names[i]).relative()
}

proof fn lemma_visible_are_relative(
    platform: Platform,
    names: Seq<Seq<char>>,
    n: int,
    all: bool,
)
    requires
        0 <= n <= names.len(),
        relative_names(platform, names),
    ensures
        relative_names(platform, resources::visible_names(names, n, all)),
    decreases n,
{
    if n > 0 {
        lemma_visible_are_relative(platform, names, n - 1, all);
        let rest = resources::visible_names(names, n - 1, all);
        let out = resources::visible_names(names, n, all);
        assert forall|j: int| 0 <= j < out.len() implies paths::path_of(
            platform,
            #[trigger] out[j],
        ).relative() by {
            if j < rest.len() {
                assert(out[j] == rest[j]);
            } else {
                assert(out[j] == names[n - 1]);
            }
        }
    }
}

proof fn lemma_visible(a: Seq<EntryModel>, b: Seq<EntryModel>, cwd: PathModel, dir: PathModel, all: bool)
    requires
        calm(a, b, cwd),
        !inside(dir, cwd),
    ensures
        resources::visible_at(a, dir, all) == resources::visible_at(b, dir, all),
        relative_names(dir.platform, resources::visible_at(a, dir, all)),
{
    let names = paths::children_at(a, dir);
    lemma_visible_are_relative(dir.platform, names, names.len() as int, all);
}

/// A path that is written otherwise is as clear.
proof fn lemma_same_is_clear(a: Seq<EntryModel>, cwd: PathModel, p: PathModel, q: PathModel)
    requires
        paths::same_path(p, q),
        clear(a, p, cwd),
    ensures
        clear(a, q, cwd),
{
    reveal(inside);
    reveal(once);
    paths::lemma_same_entry(a, p, q, 0);
    lemma_same_plain(p, q);
    let (pp, pq) = (paths::plain_path(p), paths::plain_path(q));
    lemma_same_plain(pp, pq);
    lemma_same_plain(paths::plain_path(pp), paths::plain_path(pq));
}

/// A path that is written otherwise is as clear in its plain form.
proof fn lemma_same_is_clear_both(a: Seq<EntryModel>, cwd: PathModel, p: PathModel, q: PathModel)
    requires
        paths::same_path(p, q),
        clear_both(a, p, cwd),
    ensures
        clear_both(a, q, cwd),
{
    lemma_same_plain(p, q);
    lemma_same_is_clear(a, cwd, p, q);
    lemma_same_is_clear(a, cwd, paths::plain_path(p), paths::plain_path(q));
}

/// Where a clear path leads, in its plain form, is clear.
proof fn lemma_plain_at_is_clear(a: Seq<EntryModel>, cwd: PathModel, p: PathModel)
    requires
        sound_tree(a),
        clear(a, p, cwd),
    ensures
        paths::plain_at(a, p) matches Some(top) ==> clear_both(a, top, cwd),
{
    reveal(once);
    if let Some(c) = paths::canonical_at(a, p) {
        assert(sound_end(a, p, c));
        reveal(sound_end);
        lemma_apart_plain(c, cwd);
        let top = paths::plain_path(c);
        assert(clear(a, top, cwd));
        lemma_same_is_clear(a, cwd, top, paths::plain_path(top));
    }
}

/// What lies in a place that has nothing to do with `cwd` has nothing to do
/// with it, links or not.
proof fn lemma_found_is_apart(found: PathModel, top: PathModel, cwd: PathModel)
    requires
        apart(top, cwd),
        once(found),
        paths::lies_in(paths::plain_path(found), paths::plain_path(top)),
    ensures
        apart(found, cwd),
        apart(paths::plain_path(found), cwd),
{
    reveal(once);
    assert(inside(found, top)) by {
        reveal(inside);
    }
    lemma_plain_is_somewhere(found);
    lemma_plain_is_somewhere(top);
    let (pf, pt) = (paths::plain_path(found), paths::plain_path(top));
    assert(paths::steps_of(pt).len() > 0);
    assert(paths::folded(pt).len() > 0);
    assert(paths::steps_of(pf).len() > 0);
    lemma_apart_inside(found, top, cwd);
    lemma_apart_plain(found, cwd);
}

proof fn lemma_contained(
    a: Seq<EntryModel>,
    b: Seq<EntryModel>,
    cwd: PathModel,
    boundary: PathModel,
    path: PathModel,
)
    requires
        calm(a, b, cwd),
        clear(a, boundary, cwd),
        !inside(path, cwd),
    ensures
        resources::contained(a, boundary, path) == resources::contained(b, boundary, path),
        resources::contained(a, boundary, path) matches Some(c) ==> apart(c, cwd) && (
        paths::canonical_at(a, path) matches Some(found) && apart(found, cwd)),
{
    match (paths::canonical_at(a, boundary), paths::canonical_at(a, path)) {
        (Some(top), Some(found)) => {
            if paths::lies_in(paths::plain_path(found), paths::plain_path(top)) {
                assert(once(found)) by {
                    assert(sound_end(a, path, found));
                    reveal(sound_end);
                }
                lemma_found_is_apart(found, top, cwd);
            }
        },
        _ => {},
    }
}

/// A text that is no absolute path puts nothing before the prefix of a plain
/// path but a drive.
proof fn lemma_entry_is_plain(top: PathModel, s: Seq<char>)
    requires
        paths::same_path(paths::plain_path(top), top),
        !paths::nowhere(top),
        !paths::path_of(top.platform, s).absolute(),
    ensures
        paths::same_path(paths::plain_path(paths::below(top, s)), paths::below(top, s)),
        !paths::nowhere(paths::below(top, s)),
{
    let rest = paths::path_of(top.platform, s);
    let q = paths::below(top, s);
    if rest.prefix.len() == 0 {
        lemma_plain_stays(top, q);
    } else {
        assert(top.platform == Platform::Windows);
        reveal(paths::windows_start);
        reveal_strlit("\\\\");
        reveal_strlit("\\\\?\\");
        reveal_strlit("\\\\.\\");
        reveal_strlit("\\\\?\\UNC\\");
        let slashed = text::replaced(s, "/"@, "\\"@);
        assert(rest.prefix == paths::drive_of(slashed));
        assert(text::is_letter(slashed[0]));
        assert(rest.prefix[0] != '\\');
        if text::begins(q.prefix, "\\\\?\\UNC\\"@) {
            lemma_begins(q.prefix, "\\\\?\\UNC\\"@);
        }
        if text::begins(q.prefix, "\\\\?\\"@) {
            lemma_begins(q.prefix, "\\\\?\\"@);
        }
    }
}

/// An entry of a manifest that leads out of its directory by a root of its
/// own leads to nothing inside `cwd`.
proof fn lemma_entry_from_root(
    a: Seq<EntryModel>,
    b: Seq<EntryModel>,
    cwd: PathModel,
    boundary: PathModel,
    path: PathModel,
)
    requires
        calm(a, b, cwd),
        clear(a, boundary, cwd),
        paths::same_path(paths::plain_path(path), path),
        !paths::nowhere(path),
        path.platform == Platform::Windows,
    ensures
        resources::contained(a, boundary, path) == resources::contained(b, boundary, path),
        resources::contained(a, boundary, path) is Some ==> apart(path, cwd),
{
    reveal(once);
    if path.platform != cwd.platform {
        assert(!inside(path, cwd) && !inside(cwd, path)) by {
            reveal(inside);
        }
        lemma_contained(a, b, cwd, boundary, path);
    } else {
        assert(sound_tree(a));
        if !inside(path, cwd) {
            lemma_contained(a, b, cwd, boundary, path);
        } else {
            lemma_no_way_out(a, cwd, boundary, path);
            lemma_no_way_out(b, cwd, boundary, path);
        }
    }
}

/// From inside `cwd` no link leads to a boundary that has nothing to do with
/// it.
proof fn lemma_no_way_out(
    fs: Seq<EntryModel>,
    cwd: PathModel,
    boundary: PathModel,
    path: PathModel,
)
    requires
        stays(fs, cwd),
        inside(path, cwd),
        paths::canonical_at(fs, boundary) matches Some(top) ==> apart(top, cwd),
    ensures
        resources::contained(fs, boundary, path) is None,
{
    match (paths::canonical_at(fs, boundary), paths::canonical_at(fs, path)) {
        (Some(top), Some(found)) => {
            if paths::lies_in(paths::plain_path(found), paths::plain_path(top)) {
                reveal(inside);
                let (pf, pt, pc) = (
                    paths::plain_path(found),
                    paths::plain_path(top),
                    paths::plain_path(cwd),
                );
                if inside(found, cwd) {
                    lemma_lies_in_one(pf, pt, pc);
                } else {
                    lemma_lies_in_through(pc, pf, pt);
                }
            }
        },
        _ => {},
    }
}

proof fn lemma_entry_path(
    a: Seq<EntryModel>,
    b: Seq<EntryModel>,
    cwd: PathModel,
    boundary: PathModel,
    base: PathModel,
    value: Seq<char>,
)
    requires
        calm(a, b, cwd),
        clear(a, boundary, cwd),
        clear(a, base, cwd),
    ensures
        resources::entry_path(a, boundary, base, value) == resources::entry_path(
            b,
            boundary,
            base,
            value,
        ),
        resources::entry_path(a, boundary, base, value) matches Some(p) ==> apart(p, cwd),
{
    reveal(once);
    let trimmed = text::trim_of(value);
    if !paths::path_of(base.platform, trimmed).absolute() {
        lemma_plain_at_is_clear(a, cwd, base);
        match paths::canonical_at(a, base) {
            Some(found) => {
                let top = paths::plain_path(found);
                let lexical = paths::below(top, trimmed);
                let path = paths::plain_path(lexical);
                assert(once(found) && found.platform == base.platform) by {
                    assert(sound_end(a, base, found));
                    reveal(sound_end);
                }
                lemma_entry_is_plain(top, trimmed);
                if paths::path_of(base.platform, trimmed).relative() {
                    lemma_apart_below(top, trimmed, cwd);
                    lemma_apart_plain(lexical, cwd);
                    lemma_contained(a, b, cwd, boundary, path);
                } else {
                    lemma_same_plain(path, lexical);
                    lemma_plain_is_somewhere(lexical);
                    lemma_entry_from_root(a, b, cwd, boundary, path);
                }
            },
            None => {},
        }
    }
}

/// Whether every path of a list has nothing to do with `cwd`.
pub open spec fn all_apart(list: Seq<PathModel>, cwd: PathModel) -> bool {
    forall|i: int| 0 <= i < list.len() ==> apart(#[trigger] list[i], cwd)
}

proof fn lemma_with_path_apart(list: Seq<PathModel>, p: PathModel, cwd: PathModel)
    requires
        all_apart(list, cwd),
        apart(p, cwd),
    ensures
        all_apart(paths::with_path(list, p), cwd),
{
    let k = paths::slot(list, p, 0);
    lemma_slot_range(list, p, 0);
    let out = paths::with_path(list, p);
    assert forall|i: int| 0 <= i < out.len() implies apart(#[trigger] out[i], cwd) by {
        if !(k < list.len() && paths::same_path(list[k], p)) {
            if i < k {
                assert(out[i] == list[i]);
            } else if i > k {
                assert(out[i] == list[i - 1]);
            }
        }
    }
}

proof fn lemma_slot_range(list: Seq<PathModel>, p: PathModel, i: int)
    requires
        0 <= i <= list.len(),
    ensures
        i <= paths::slot(list, p, i) <= list.len(),
    decreases list.len() - i,
{
    if i < list.len() && paths::path_before(list[i], p) {
        lemma_slot_range(list, p, i + 1);
    }
}

proof fn lemma_with_paths_apart(
    list: Seq<PathModel>,
    more: Seq<PathModel>,
    n: int,
    cwd: PathModel,
)
    requires
        0 <= n <= more.len(),
        all_apart(list, cwd),
        all_apart(more, cwd),
    ensures
        all_apart(paths::with_paths(list, more, n), cwd),
    decreases n,
{
    if n > 0 {
        lemma_with_paths_apart(list, more, n - 1, cwd);
        lemma_with_path_apart(paths::with_paths(list, more, n - 1), more[n - 1], cwd);
    }
}

proof fn lemma_globbed(
    a: Seq<EntryModel>,
    b: Seq<EntryModel>,
    cwd: PathModel,
    boundary: PathModel,
    base: PathModel,
    dir: PathModel,
    names: Seq<Seq<char>>,
    i: int,
    pattern: Seq<char>,
    w: WalkModel,
    depth: nat,
)
    requires
        calm(a, b, cwd),
        clear(a, boundary, cwd),
        apart(dir, cwd),
        relative_names(dir.platform, names),
        all_apart(w.out, cwd),
    ensures
        resources::globbed(a, boundary, base, dir, names, i, pattern, w, depth)
            == resources::globbed(b, boundary, base, dir, names, i, pattern, w, depth),
        all_apart(
            resources::globbed(a, boundary, base, dir, names, i, pattern, w, depth).out,
            cwd,
        ),
    decreases depth, names.len() - i,
{
    if 0 <= i < names.len() {
        let path = paths::plain_path(paths::below(dir, names[i]));
        lemma_apart_below(dir, names[i], cwd);
        lemma_apart_plain(paths::below(dir, names[i]), cwd);
        lemma_contained(a, b, cwd, boundary, path);
        lemma_with_path_apart(w.out, path, cwd);
        let next = match resources::contained(a, boundary, path) {
            None => w,
            Some(canonical) => match paths::relative_to(path, base) {
                None => w,
                Some(way) => {
                    let relative = resources::pattern_text(way);
                    let is_dir = paths::dir_at(a, path);
                    let hit = resources::glob_verdict(pattern, relative) == Some(true) || (is_dir
                        && resources::glob_verdict(pattern, relative + "/"@) == Some(true));
                    let w1 = if hit {
                        resources::found(w, path)
                    } else {
                        w
                    };
                    if is_dir && !paths::lists(w1.visited, canonical) && depth > 0 {
                        lemma_visible(a, b, cwd, path, true);
                        let inner = resources::visible_at(a, path, true);
                        lemma_globbed(
                            a,
                            b,
                            cwd,
                            boundary,
                            base,
                            path,
                            inner,
                            0,
                            pattern,
                            resources::entered(w1, canonical),
                            (depth - 1) as nat,
                        );
                        resources::globbed(
                            a,
                            boundary,
                            base,
                            path,
                            inner,
                            0,
                            pattern,
                            resources::entered(w1, canonical),
                            (depth - 1) as nat,
                        )
                    } else {
                        w1
                    }
                },
            },
        };
        lemma_globbed(a, b, cwd, boundary, base, dir, names, i + 1, pattern, next, depth);
    }
}

proof fn lemma_sources(
    a: Seq<EntryModel>,
    b: Seq<EntryModel>,
    cwd: PathModel,
    boundary: PathModel,
    base: PathModel,
    entry: Seq<char>,
)
    requires
        calm(a, b, cwd),
        clear(a, boundary, cwd),
        clear(a, base, cwd),
    ensures
        resources::sources_of(a, boundary, base, entry) == resources::sources_of(
            b,
            boundary,
            base,
            entry,
        ),
        all_apart(resources::sources_of(a, boundary, base, entry), cwd),
{
    if entry.contains('*') || entry.contains('?') {
        let plain = resources::plain_pattern(entry);
        lemma_contained(a, b, cwd, boundary, base);
        lemma_visible(a, b, cwd, base, true);
        match resources::contained(a, boundary, base) {
            None => {},
            Some(top) => {
                let names = resources::visible_at(a, base, true);
                let w = WalkModel { out: seq![], visited: seq![top] };
                search_depth::lemma_glob_is_complete(
                    a,
                    boundary,
                    base,
                    base,
                    names,
                    plain,
                    w,
                    b.len(),
                );
                search_depth::lemma_glob_is_complete(
                    b,
                    boundary,
                    base,
                    base,
                    names,
                    plain,
                    w,
                    a.len(),
                );
                lemma_globbed(
                    a,
                    b,
                    cwd,
                    boundary,
                    base,
                    base,
                    names,
                    0,
                    plain,
                    w,
                    a.len() + b.len(),
                );
                assert(a.len() + b.len() == b.len() + a.len());
            },
        }
    } else {
        lemma_entry_path(a, b, cwd, boundary, base, entry);
    }
}

proof fn lemma_matched(
    a: Seq<EntryModel>,
    b: Seq<EntryModel>,
    cwd: PathModel,
    path: PathModel,
    root: PathModel,
    pattern: Seq<char>,
    exact: bool,
    kind: FilterResourceKind,
)
    requires
        calm(a, b, cwd),
        !inside(root, cwd),
    ensures
        resources::matched(a, path, root, pattern, exact, kind) == resources::matched(
            b,
            path,
            root,
            pattern,
            exact,
            kind,
        ),
{
    assert(resources::resolved(a, root) == resources::resolved(b, root));
}

proof fn lemma_some_pattern(
    a: Seq<EntryModel>,
    b: Seq<EntryModel>,
    cwd: PathModel,
    path: PathModel,
    patterns: Seq<Seq<char>>,
    root: PathModel,
    mode: PatternMode,
    exact: bool,
    kind: FilterResourceKind,
)
    requires
        calm(a, b, cwd),
        !inside(root, cwd),
    ensures
        resources::some_pattern(a, path, patterns, root, mode, exact, kind)
            == resources::some_pattern(b, path, patterns, root, mode, exact, kind),
{
    assert forall|i: int| 0 <= i < patterns.len() implies resources::matched(
        a,
        path,
        root,
        resources::mode_and_target(#[trigger] patterns[i]).1,
        exact,
        kind,
    ) == resources::matched(
        b,
        path,
        root,
        resources::mode_and_target(patterns[i]).1,
        exact,
        kind,
    ) by {
        lemma_matched(
            a,
            b,
            cwd,
            path,
            root,
            resources::mode_and_target(patterns[i]).1,
            exact,
            kind,
        );
    }
    if resources::some_pattern(a, path, patterns, root, mode, exact, kind) {
        let i = choose|i: int|
            0 <= i < patterns.len() && resources::mode_and_target(#[trigger] patterns[i]).0 == mode
                && resources::matched(
                a,
                path,
                root,
                resources::mode_and_target(patterns[i]).1,
                exact,
                kind,
            );
        assert(resources::mode_and_target(patterns[i]).0 == mode);
    }
    if resources::some_pattern(b, path, patterns, root, mode, exact, kind) {
        let i = choose|i: int|
            0 <= i < patterns.len() && resources::mode_and_target(#[trigger] patterns[i]).0 == mode
                && resources::matched(
                b,
                path,
                root,
                resources::mode_and_target(patterns[i]).1,
                exact,
                kind,
            );
        assert(resources::mode_and_target(patterns[i]).0 == mode);
    }
}

proof fn lemma_selection(
    a: Seq<EntryModel>,
    b: Seq<EntryModel>,
    cwd: PathModel,
    all: Seq<PathModel>,
    n: int,
    patterns: Seq<Seq<char>>,
    root: PathModel,
    kind: FilterResourceKind,
)
    requires
        calm(a, b, cwd),
        !inside(root, cwd),
        0 <= n <= all.len(),
        all_apart(all, cwd),
    ensures
        resources::selection(a, all, n, patterns, root, kind) == resources::selection(
            b,
            all,
            n,
            patterns,
            root,
            kind,
        ),
        all_apart(resources::selection(a, all, n, patterns, root, kind), cwd),
    decreases n,
{
    if n > 0 {
        let p = all[n - 1];
        lemma_selection(a, b, cwd, all, n - 1, patterns, root, kind);
        lemma_some_pattern(a, b, cwd, p, patterns, root, PatternMode::Include, false, kind);
        lemma_some_pattern(a, b, cwd, p, patterns, root, PatternMode::Exclude, false, kind);
        lemma_some_pattern(a, b, cwd, p, patterns, root, PatternMode::ForceInclude, true, kind);
        lemma_some_pattern(a, b, cwd, p, patterns, root, PatternMode::ForceExclude, true, kind);
        lemma_with_path_apart(
            resources::selection(a, all, n - 1, patterns, root, kind),
            p,
            cwd,
        );
    }
}

proof fn lemma_toggled(
    a: Seq<EntryModel>,
    b: Seq<EntryModel>,
    cwd: PathModel,
    path: PathModel,
    patterns: Seq<Seq<char>>,
    n: int,
    root: PathModel,
    kind: FilterResourceKind,
    start: bool,
)
    requires
        calm(a, b, cwd),
        !inside(root, cwd),
    ensures
        resources::toggled(a, path, patterns, n, root, kind, start) == resources::toggled(
            b,
            path,
            patterns,
            n,
            root,
            kind,
            start,
        ),
    decreases n,
{
    if n > 0 {
        lemma_toggled(a, b, cwd, path, patterns, n - 1, root, kind, start);
        let (mode, target) = resources::mode_and_target(patterns[n - 1]);
        let exact = mode == PatternMode::ForceInclude || mode == PatternMode::ForceExclude;
        lemma_matched(a, b, cwd, path, root, target, exact, kind);
    }
}

proof fn lemma_turned_on(
    a: Seq<EntryModel>,
    b: Seq<EntryModel>,
    cwd: PathModel,
    all: Seq<PathModel>,
    n: int,
    patterns: Seq<Seq<char>>,
    root: PathModel,
    kind: FilterResourceKind,
    initial: Seq<PathModel>,
)
    requires
        calm(a, b, cwd),
        !inside(root, cwd),
        0 <= n <= all.len(),
        all_apart(all, cwd),
    ensures
        resources::turned_on(a, all, n, patterns, root, kind, initial) == resources::turned_on(
            b,
            all,
            n,
            patterns,
            root,
            kind,
            initial,
        ),
        all_apart(resources::turned_on(a, all, n, patterns, root, kind, initial), cwd),
    decreases n,
{
    if n > 0 {
        lemma_turned_on(a, b, cwd, all, n - 1, patterns, root, kind, initial);
        lemma_toggled(
            a,
            b,
            cwd,
            all[n - 1],
            patterns,
            patterns.len() as int,
            root,
            kind,
            paths::lists(initial, all[n - 1]),
        );
        lemma_with_path_apart(
            resources::turned_on(a, all, n - 1, patterns, root, kind, initial),
            all[n - 1],
            cwd,
        );
    }
}

/// What a search leaves behind is the same in both pictures, and all it has
/// found has nothing to do with `cwd`.
pub open spec fn same_walk(a: WalkModel, b: WalkModel, cwd: PathModel) -> bool {
    a == b && all_apart(a.out, cwd)
}

proof fn lemma_collected(
    a: Seq<EntryModel>,
    b: Seq<EntryModel>,
    cwd: PathModel,
    boundary: PathModel,
    path: PathModel,
    kind: FilterResourceKind,
    w: WalkModel,
    depth: nat,
)
    requires
        calm(a, b, cwd),
        clear(a, boundary, cwd),
        apart(path, cwd),
        all_apart(w.out, cwd),
    ensures
        same_walk(
            resources::collected(a, boundary, path, kind, w, depth),
            resources::collected(b, boundary, path, kind, w, depth),
            cwd,
        ),
    decreases depth, 0nat, 0int,
{
    lemma_contained(a, b, cwd, boundary, path);
    match resources::contained(a, boundary, path) {
        None => {},
        Some(canonical) => {
            lemma_with_path_apart(w.out, canonical, cwd);
            if !paths::file_at(a, path) && paths::dir_at(a, path) && !paths::lists(w.visited, canonical)
                && depth > 0 {
                let w1 = resources::entered(w, canonical);
                let lower = (depth - 1) as nat;
                match kind {
                    FilterResourceKind::Extensions => {
                        lemma_extension_dir(a, b, cwd, boundary, path, w1, lower);
                    },
                    FilterResourceKind::Skills => {
                        lemma_skill_dir(a, b, cwd, boundary, path, path, w1, lower);
                    },
                    _ => {
                        lemma_visible(a, b, cwd, path, false);
                        lemma_below(
                            a,
                            b,
                            cwd,
                            boundary,
                            path,
                            resources::visible_at(a, path, false),
                            0,
                            kind,
                            w1,
                            lower,
                        );
                    },
                }
            }
        },
    }
}

proof fn lemma_below(
    a: Seq<EntryModel>,
    b: Seq<EntryModel>,
    cwd: PathModel,
    boundary: PathModel,
    dir: PathModel,
    names: Seq<Seq<char>>,
    i: int,
    kind: FilterResourceKind,
    w: WalkModel,
    depth: nat,
)
    requires
        calm(a, b, cwd),
        clear(a, boundary, cwd),
        apart(dir, cwd),
        relative_names(dir.platform, names),
        all_apart(w.out, cwd),
    ensures
        same_walk(
            resources::collected_below(a, boundary, dir, names, i, kind, w, depth),
            resources::collected_below(b, boundary, dir, names, i, kind, w, depth),
            cwd,
        ),
    decreases depth, 1nat, names.len() - i,
{
    if 0 <= i < names.len() {
        let path = paths::below(dir, names[i]);
        lemma_apart_below(dir, names[i], cwd);
        lemma_collected(a, b, cwd, boundary, path, kind, w, depth);
        let next = resources::collected(a, boundary, path, kind, w, depth);
        lemma_below(a, b, cwd, boundary, dir, names, i + 1, kind, next, depth);
    }
}

proof fn lemma_from(
    a: Seq<EntryModel>,
    b: Seq<EntryModel>,
    cwd: PathModel,
    boundary: PathModel,
    sources: Seq<PathModel>,
    i: int,
    kind: FilterResourceKind,
    w: WalkModel,
    depth: nat,
)
    requires
        calm(a, b, cwd),
        clear(a, boundary, cwd),
        all_apart(sources, cwd),
        all_apart(w.out, cwd),
    ensures
        same_walk(
            resources::collected_from(a, boundary, sources, i, kind, w, depth),
            resources::collected_from(b, boundary, sources, i, kind, w, depth),
            cwd,
        ),
    decreases depth, 1nat, sources.len() - i,
{
    if 0 <= i < sources.len() {
        lemma_collected(a, b, cwd, boundary, sources[i], kind, w, depth);
        let next = resources::collected(a, boundary, sources[i], kind, w, depth);
        lemma_from(a, b, cwd, boundary, sources, i + 1, kind, next, depth);
    }
}

proof fn lemma_walk(
    a: Seq<EntryModel>,
    b: Seq<EntryModel>,
    cwd: PathModel,
    boundary: PathModel,
    base: PathModel,
    entries: Seq<Seq<char>>,
    i: int,
    kind: FilterResourceKind,
    w: WalkModel,
    any: bool,
    depth: nat,
)
    requires
        calm(a, b, cwd),
        clear(a, boundary, cwd),
        clear(a, base, cwd),
        all_apart(w.out, cwd),
    ensures
        same_walk(
            resources::manifest_walk(a, boundary, base, entries, i, kind, w, any, depth).0,
            resources::manifest_walk(b, boundary, base, entries, i, kind, w, any, depth).0,
            cwd,
        ),
        resources::manifest_walk(a, boundary, base, entries, i, kind, w, any, depth).1
            == resources::manifest_walk(b, boundary, base, entries, i, kind, w, any, depth).1,
    decreases depth, 2nat, entries.len() - i,
{
    if 0 <= i < entries.len() {
        if resources::override_pattern(entries[i]) {
            lemma_walk(a, b, cwd, boundary, base, entries, i + 1, kind, w, any, depth);
        } else {
            lemma_sources(a, b, cwd, boundary, base, entries[i]);
            let sources = resources::sources_of(a, boundary, base, entries[i]);
            lemma_from(a, b, cwd, boundary, sources, 0, kind, w, depth);
            let next = resources::collected_from(a, boundary, sources, 0, kind, w, depth);
            lemma_walk(
                a,
                b,
                cwd,
                boundary,
                base,
                entries,
                i + 1,
                kind,
                next,
                any || sources.len() > 0,
                depth,
            );
        }
    }
}

proof fn lemma_manifest(
    a: Seq<EntryModel>,
    b: Seq<EntryModel>,
    cwd: PathModel,
    boundary: PathModel,
    base: PathModel,
    entries: Seq<Seq<char>>,
    kind: FilterResourceKind,
    visited: Seq<PathModel>,
    depth: nat,
)
    requires
        calm(a, b, cwd),
        clear(a, boundary, cwd),
        clear(a, base, cwd),
    ensures
        resources::manifest_resources(a, boundary, base, entries, kind, visited, depth)
            == resources::manifest_resources(b, boundary, base, entries, kind, visited, depth),
        all_apart(
            resources::manifest_resources(a, boundary, base, entries, kind, visited, depth).0,
            cwd,
        ),
    decreases depth, 3nat, 0int,
{
    let start = WalkModel { out: seq![], visited };
    lemma_walk(a, b, cwd, boundary, base, entries, 0, kind, start, false, depth);
    let (w, _) = resources::manifest_walk(
        a,
        boundary,
        base,
        entries,
        0,
        kind,
        start,
        false,
        depth,
    );
    let patterns = resources::overrides_among(entries, entries.len() as int);
    lemma_apart_plain(base, cwd);
    if let Some(found) = paths::canonical_at(a, base) {
        lemma_apart_plain(found, cwd);
    }
    lemma_selection(
        a,
        b,
        cwd,
        w.out,
        w.out.len() as int,
        patterns,
        resources::resolved(a, base),
        kind,
    );
}

proof fn lemma_index_file(
    a: Seq<EntryModel>,
    b: Seq<EntryModel>,
    cwd: PathModel,
    boundary: PathModel,
    dir: PathModel,
)
    requires
        calm(a, b, cwd),
        clear(a, boundary, cwd),
        apart(dir, cwd),
    ensures
        resources::index_file(a, boundary, dir) == resources::index_file(b, boundary, dir),
        resources::index_file(a, boundary, dir) matches Some(p) ==> apart(p, cwd),
        resources::listed_extensions(a, dir) == resources::listed_extensions(b, dir),
{
    reveal_strlit("index.ts");
    reveal_strlit("index.js");
    reveal_strlit("package.json");
    lemma_apart_below(dir, "index.ts"@, cwd);
    lemma_apart_below(dir, "index.js"@, cwd);
    lemma_apart_below(dir, "package.json"@, cwd);
    lemma_contained(a, b, cwd, boundary, paths::below(dir, "index.ts"@));
    lemma_contained(a, b, cwd, boundary, paths::below(dir, "index.js"@));
}

proof fn lemma_extension_entry(
    a: Seq<EntryModel>,
    b: Seq<EntryModel>,
    cwd: PathModel,
    boundary: PathModel,
    dir: PathModel,
    w: WalkModel,
    depth: nat,
)
    requires
        calm(a, b, cwd),
        clear(a, boundary, cwd),
        clear(a, dir, cwd),
        all_apart(w.out, cwd),
    ensures
        same_walk(
            resources::extension_entry(a, boundary, dir, w, depth).0,
            resources::extension_entry(b, boundary, dir, w, depth).0,
            cwd,
        ),
        resources::extension_entry(a, boundary, dir, w, depth).1 == resources::extension_entry(
            b,
            boundary,
            dir,
            w,
            depth,
        ).1,
    decreases depth, 4nat, 0int,
{
    lemma_index_file(a, b, cwd, boundary, dir);
    if let Some(p) = resources::index_file(a, boundary, dir) {
        lemma_with_path_apart(w.out, p, cwd);
    }
    match resources::listed_extensions(a, dir) {
        Some(entries) => {
            lemma_manifest(
                a,
                b,
                cwd,
                boundary,
                dir,
                entries,
                FilterResourceKind::Extensions,
                w.visited,
                depth,
            );
            let selected_paths = resources::manifest_resources(
                a,
                boundary,
                dir,
                entries,
                FilterResourceKind::Extensions,
                w.visited,
                depth,
            ).0;
            lemma_with_paths_apart(w.out, selected_paths, selected_paths.len() as int, cwd);
        },
        None => {},
    }
}

proof fn lemma_extension_dir(
    a: Seq<EntryModel>,
    b: Seq<EntryModel>,
    cwd: PathModel,
    boundary: PathModel,
    dir: PathModel,
    w: WalkModel,
    depth: nat,
)
    requires
        calm(a, b, cwd),
        clear(a, boundary, cwd),
        clear(a, dir, cwd),
        all_apart(w.out, cwd),
    ensures
        same_walk(
            resources::extension_dir(a, boundary, dir, w, depth),
            resources::extension_dir(b, boundary, dir, w, depth),
            cwd,
        ),
    decreases depth, 6nat, 0int,
{
    lemma_extension_entry(a, b, cwd, boundary, dir, w, depth);
    let (w1, done) = resources::extension_entry(a, boundary, dir, w, depth);
    if !done {
        lemma_visible(a, b, cwd, dir, false);
        lemma_extensions_below(
            a,
            b,
            cwd,
            boundary,
            dir,
            resources::visible_at(a, dir, false),
            0,
            w1,
            depth,
        );
    }
}

proof fn lemma_extensions_below(
    a: Seq<EntryModel>,
    b: Seq<EntryModel>,
    cwd: PathModel,
    boundary: PathModel,
    dir: PathModel,
    names: Seq<Seq<char>>,
    i: int,
    w: WalkModel,
    depth: nat,
)
    requires
        calm(a, b, cwd),
        clear(a, boundary, cwd),
        apart(dir, cwd),
        relative_names(dir.platform, names),
        all_apart(w.out, cwd),
    ensures
        same_walk(
            resources::extensions_below(a, boundary, dir, names, i, w, depth),
            resources::extensions_below(b, boundary, dir, names, i, w, depth),
            cwd,
        ),
    decreases depth, 5nat, names.len() - i,
{
    if 0 <= i < names.len() {
        let path = paths::below(dir, names[i]);
        lemma_apart_below(dir, names[i], cwd);
        lemma_contained(a, b, cwd, boundary, path);
        let next = match resources::contained(a, boundary, path) {
            None => w,
            Some(canonical) => {
                lemma_with_path_apart(w.out, canonical, cwd);
                if paths::file_at(a, path) {
                    if resources::resource_file(path, FilterResourceKind::Extensions) {
                        resources::found(w, canonical)
                    } else {
                        w
                    }
                } else if paths::dir_at(a, path) && !paths::lists(w.visited, canonical) {
                    let w1 = resources::entered(w, canonical);
                    lemma_extension_entry(a, b, cwd, boundary, path, w1, depth);
                    resources::extension_entry(a, boundary, path, w1, depth).0
                } else {
                    w
                }
            },
        };
        lemma_extensions_below(a, b, cwd, boundary, dir, names, i + 1, next, depth);
    }
}

proof fn lemma_skill_dir(
    a: Seq<EntryModel>,
    b: Seq<EntryModel>,
    cwd: PathModel,
    boundary: PathModel,
    dir: PathModel,
    top: PathModel,
    w: WalkModel,
    depth: nat,
)
    requires
        calm(a, b, cwd),
        clear(a, boundary, cwd),
        apart(dir, cwd),
        all_apart(w.out, cwd),
    ensures
        same_walk(
            resources::skill_dir(a, boundary, dir, top, w, depth),
            resources::skill_dir(b, boundary, dir, top, w, depth),
            cwd,
        ),
    decreases depth, 6nat, 0int,
{
    reveal_strlit("SKILL.md");
    let skill = paths::below(dir, "SKILL.md"@);
    lemma_apart_below(dir, "SKILL.md"@, cwd);
    lemma_contained(a, b, cwd, boundary, skill);
    if let Some(canonical) = resources::contained(a, boundary, skill) {
        lemma_with_path_apart(w.out, canonical, cwd);
    }
    lemma_visible(a, b, cwd, dir, false);
    lemma_skills_below(
        a,
        b,
        cwd,
        boundary,
        dir,
        top,
        resources::visible_at(a, dir, false),
        0,
        w,
        depth,
    );
}

proof fn lemma_skills_below(
    a: Seq<EntryModel>,
    b: Seq<EntryModel>,
    cwd: PathModel,
    boundary: PathModel,
    dir: PathModel,
    top: PathModel,
    names: Seq<Seq<char>>,
    i: int,
    w: WalkModel,
    depth: nat,
)
    requires
        calm(a, b, cwd),
        clear(a, boundary, cwd),
        apart(dir, cwd),
        relative_names(dir.platform, names),
        all_apart(w.out, cwd),
    ensures
        same_walk(
            resources::skills_below(a, boundary, dir, top, names, i, w, depth),
            resources::skills_below(b, boundary, dir, top, names, i, w, depth),
            cwd,
        ),
    decreases depth, 5nat, names.len() - i,
{
    if 0 <= i < names.len() {
        let path = paths::below(dir, names[i]);
        lemma_apart_below(dir, names[i], cwd);
        lemma_contained(a, b, cwd, boundary, path);
        let next = match resources::contained(a, boundary, path) {
            None => w,
            Some(canonical) => {
                lemma_with_path_apart(w.out, canonical, cwd);
                if paths::file_at(a, path) {
                    if paths::same_path(dir, top) && resources::resource_file(path, FilterResourceKind::Skills) {
                        resources::found(w, canonical)
                    } else {
                        w
                    }
                } else if paths::dir_at(a, path) && !paths::lists(w.visited, canonical) && depth > 0 {
                    let w1 = resources::entered(w, canonical);
                    let lower = (depth - 1) as nat;
                    lemma_skill_dir(a, b, cwd, boundary, path, top, w1, lower);
                    resources::skill_dir(a, boundary, path, top, w1, lower)
                } else {
                    w
                }
            },
        };
        lemma_skills_below(a, b, cwd, boundary, dir, top, names, i + 1, next, depth);
    }
}

proof fn lemma_inventory(
    a: Seq<EntryModel>,
    b: Seq<EntryModel>,
    cwd: PathModel,
    root: PathModel,
    defaults: Seq<PathModel>,
    kind: FilterResourceKind,
)
    requires
        calm(a, b, cwd),
        clear(a, root, cwd),
        all_apart(defaults, cwd),
    ensures
        resources::inventory(a, root, defaults, kind) == resources::inventory(
            b,
            root,
            defaults,
            kind,
        ),
        all_apart(resources::inventory(a, root, defaults, kind), cwd),
{
    lemma_plain_at_is_clear(a, cwd, root);
    match paths::plain_at(a, root) {
        None => {},
        Some(boundary) => {
            let w = WalkModel { out: seq![], visited: seq![] };
            search_depth::lemma_inventory_is_complete(a, boundary, defaults, kind, w, b.len());
            search_depth::lemma_inventory_is_complete(b, boundary, defaults, kind, w, a.len());
            lemma_from(a, b, cwd, boundary, defaults, 0, kind, w, a.len() + b.len());
            assert(a.len() + b.len() == b.len() + a.len());
        },
    }
}

proof fn lemma_resources(
    a: Seq<EntryModel>,
    b: Seq<EntryModel>,
    cwd: PathModel,
    root: PathModel,
    manifest: Option<Seq<char>>,
    key: Seq<char>,
    kind: FilterResourceKind,
)
    requires
        calm(a, b, cwd),
        clear(a, root, cwd),
        harmless(key),
    ensures
        resources::resources_of(a, root, manifest, key, kind) == resources::resources_of(
            b,
            root,
            manifest,
            key,
            kind,
        ),
        all_apart(resources::resources_of(a, root, manifest, key, kind), cwd),
{
    lemma_apart_below(root, key, cwd);
    match resources::keyed(manifest, key) {
        Some(value) => {
            let entries = json::strings_in(value);
            search_depth::lemma_manifest_is_complete(
                a,
                root,
                root,
                entries,
                kind,
                seq![],
                b.len(),
            );
            search_depth::lemma_manifest_is_complete(
                b,
                root,
                root,
                entries,
                kind,
                seq![],
                a.len(),
            );
            lemma_manifest(
                a,
                b,
                cwd,
                root,
                root,
                entries,
                kind,
                seq![],
                a.len() + b.len(),
            );
            assert(a.len() + b.len() == b.len() + a.len());
        },
        None => {
            lemma_inventory(a, b, cwd, root, seq![paths::below(root, key)], kind);
        },
    }
}

proof fn lemma_files(
    a: Seq<EntryModel>,
    b: Seq<EntryModel>,
    cwd: PathModel,
    root: PathModel,
    entries: Seq<Seq<char>>,
    n: int,
)
    requires
        calm(a, b, cwd),
        clear(a, root, cwd),
    ensures
        resources::entry_files(a, root, entries, n) == resources::entry_files(
            b,
            root,
            entries,
            n,
        ),
    decreases n,
{
    if n > 0 {
        lemma_files(a, b, cwd, root, entries, n - 1);
        lemma_entry_path(a, b, cwd, root, root, entries[n - 1]);
    }
}

proof fn lemma_files_of(
    a: Seq<EntryModel>,
    b: Seq<EntryModel>,
    cwd: PathModel,
    root: PathModel,
    value: Option<Seq<char>>,
    default: Seq<char>,
)
    requires
        calm(a, b, cwd),
        clear(a, root, cwd),
        harmless(default),
    ensures
        resources::files_of(a, root, value, default) == resources::files_of(
            b,
            root,
            value,
            default,
        ),
{
    lemma_apart_below(root, default, cwd);
    match value {
        Some(value) => {
            let entries = json::strings_in(value);
            lemma_files(a, b, cwd, root, entries, entries.len() as int);
        },
        None => {},
    }
}

/// Where the links of a clear path are followed, it stays clear.
proof fn lemma_resolved_is_clear(
    a: Seq<EntryModel>,
    b: Seq<EntryModel>,
    cwd: PathModel,
    root: PathModel,
)
    requires
        calm(a, b, cwd),
        clear_both(a, root, cwd),
    ensures
        resources::resolved(a, root) == resources::resolved(b, root),
        clear_both(a, resources::resolved(a, root), cwd),
        packages::path_key(a, root) == packages::path_key(b, root),
{
    reveal(once);
    lemma_plain_at_is_clear(a, cwd, root);
    lemma_apart_plain(root, cwd);
    let plain = paths::plain_path(root);
    lemma_same_is_clear(a, cwd, plain, paths::plain_path(plain));
}

proof fn lemma_filtered(
    a: Seq<EntryModel>,
    b: Seq<EntryModel>,
    cwd: PathModel,
    root: PathModel,
    defaults: Seq<PathModel>,
    patterns: Option<Seq<Seq<char>>>,
    autoload: Option<bool>,
    kind: FilterResourceKind,
)
    requires
        calm(a, b, cwd),
        clear_both(a, root, cwd),
        all_apart(defaults, cwd),
    ensures
        resources::filtered(a, root, defaults, patterns, autoload, kind) == resources::filtered(
            b,
            root,
            defaults,
            patterns,
            autoload,
            kind,
        ),
        all_apart(resources::filtered(a, root, defaults, patterns, autoload, kind), cwd),
{
    lemma_resolved_is_clear(a, b, cwd, root);
    let top = resources::resolved(a, root);
    lemma_inventory(a, b, cwd, top, defaults, kind);
    let all = resources::inventory(a, top, defaults, kind);
    if let Some(patterns) = patterns {
        lemma_turned_on(a, b, cwd, all, all.len() as int, patterns, top, kind, seq![]);
        lemma_selection(a, b, cwd, all, all.len() as int, patterns, top, kind);
    }
}

proof fn lemma_files_among(
    a: Seq<EntryModel>,
    b: Seq<EntryModel>,
    cwd: PathModel,
    list: Seq<PathModel>,
    n: int,
)
    requires
        calm(a, b, cwd),
        0 <= n <= list.len(),
        all_apart(list, cwd),
    ensures
        resources::files_among(a, list, n) == resources::files_among(b, list, n),
        all_apart(resources::files_among(a, list, n), cwd),
        resources::some_dir(a, list) == resources::some_dir(b, list),
    decreases n,
{
    if n > 0 {
        lemma_files_among(a, b, cwd, list, n - 1);
        assert(apart(list[n - 1], cwd));
        lemma_apart_plain(list[n - 1], cwd);
    }
    assert forall|i: int| 0 <= i < list.len() implies paths::dir_at(a, #[trigger] list[i])
        == paths::dir_at(b, list[i]) by {
        assert(apart(list[i], cwd));
    }
    if resources::some_dir(a, list) {
        let i = choose|i: int| 0 <= i < list.len() && paths::dir_at(a, #[trigger] list[i]);
        assert(paths::dir_at(b, list[i]));
    }
    if resources::some_dir(b, list) {
        let i = choose|i: int| 0 <= i < list.len() && paths::dir_at(b, #[trigger] list[i]);
        assert(paths::dir_at(a, list[i]));
    }
}

proof fn lemma_and_others(
    base: Seq<PathModel>,
    list: Seq<PathModel>,
    n: int,
    all: Seq<PathModel>,
    cwd: PathModel,
)
    requires
        0 <= n <= list.len(),
        all_apart(base, cwd),
        all_apart(list, cwd),
    ensures
        all_apart(resources::and_others(base, list, n, all), cwd),
    decreases n,
{
    if n > 0 {
        lemma_and_others(base, list, n - 1, all, cwd);
        lemma_with_path_apart(
            resources::and_others(base, list, n - 1, all),
            list[n - 1],
            cwd,
        );
    }
}

proof fn lemma_changed(
    a: Seq<EntryModel>,
    b: Seq<EntryModel>,
    cwd: PathModel,
    root: PathModel,
    current: Seq<PathModel>,
    patterns: Seq<Seq<char>>,
    kind: FilterResourceKind,
)
    requires
        calm(a, b, cwd),
        clear_both(a, root, cwd),
        all_apart(current, cwd),
    ensures
        resources::changed(a, root, current, patterns, kind) == resources::changed(
            b,
            root,
            current,
            patterns,
            kind,
        ),
        all_apart(resources::changed(a, root, current, patterns, kind), cwd),
{
    lemma_resolved_is_clear(a, b, cwd, root);
    let top = resources::resolved(a, root);
    lemma_inventory(a, b, cwd, top, current, kind);
    lemma_files_among(a, b, cwd, current, current.len() as int);
    let all = resources::inventory(a, top, current, kind);
    let files = resources::files_among(a, current, current.len() as int);
    let initial = if files.len() == 0 && resources::some_dir(a, current) {
        all
    } else {
        files
    };
    lemma_turned_on(a, b, cwd, all, all.len() as int, patterns, top, kind, initial);
    lemma_and_others(
        resources::turned_on(a, all, all.len() as int, patterns, top, kind, initial),
        initial,
        initial.len() as int,
        all,
        cwd,
    );
}

/// Whether the stores below the user's home have nothing to do with `cwd`.
pub open spec fn home_apart(home: PathModel, cwd: PathModel) -> bool {
    &&& apart(paths::below(home, ".pi/agent/npm"@), cwd)
    &&& apart(paths::below(home, ".pi/agent/packages"@), cwd)
    &&& apart(paths::below(home, ".pi/agent/git"@), cwd)
}

/// Whether the user's stores have nothing to do with `cwd`.
pub open spec fn stores_apart(fs: Seq<EntryModel>, places: PlacesModel, cwd: PathModel) -> bool {
    &&& places.agent matches Ok(agent) ==> clear(fs, agent, cwd)
    &&& places.home matches Some(home) ==> {
        &&& !inside(home, cwd)
        &&& home_apart(home, cwd)
        &&& paths::canonical_at(fs, home) matches Some(c) ==> home_apart(c, cwd)
    }
}

proof fn lemma_manager_root(
    a: Seq<EntryModel>,
    b: Seq<EntryModel>,
    cwd: PathModel,
    path: PathModel,
    base: PathModel,
    relative: Seq<char>,
)
    requires
        calm(a, b, cwd),
        !inside(path, cwd),
        !inside(base, cwd),
        paths::canonical_at(a, base) matches Some(top) ==> apart(paths::below(top, relative), cwd),
    ensures
        stores::manager_root(a, path, base, relative) == stores::manager_root(
            b,
            path,
            base,
            relative,
        ),
        stores::manager_root(a, path, base, relative) matches Some(root) ==> apart(root, cwd),
{
    reveal_strlit("node_modules");
    if let Some(top) = paths::canonical_at(a, base) {
        lemma_apart_below(paths::below(top, relative), "node_modules"@, cwd);
    }
}

proof fn lemma_npm_root(
    a: Seq<EntryModel>,
    b: Seq<EntryModel>,
    cwd: PathModel,
    places: PlacesModel,
    path: PathModel,
)
    requires
        calm(a, b, cwd),
        stores_apart(a, places, cwd),
        !inside(path, cwd),
    ensures
        stores::npm_root_of(a, places, path, ResolveScope::User) == stores::npm_root_of(
            b,
            places,
            path,
            ResolveScope::User,
        ),
        stores::npm_root_of(a, places, path, ResolveScope::User) matches Some(root) ==> apart(
            root,
            cwd,
        ),
{
    reveal_strlit("npm");
    if let Ok(agent) = places.agent {
        if let Some(top) = paths::canonical_at(a, agent) {
            lemma_apart_below(top, "npm"@, cwd);
        }
        lemma_manager_root(a, b, cwd, path, agent, "npm"@);
    }
    if let Some(home) = places.home {
        lemma_manager_root(a, b, cwd, path, home, ".pi/agent/npm"@);
    }
}

proof fn lemma_below_store(
    a: Seq<EntryModel>,
    b: Seq<EntryModel>,
    cwd: PathModel,
    path: PathModel,
    base: PathModel,
    relative: Seq<char>,
)
    requires
        calm(a, b, cwd),
        !inside(path, cwd),
        !inside(base, cwd),
        paths::canonical_at(a, base) matches Some(top) ==> apart(paths::below(top, relative), cwd),
    ensures
        stores::below_store(a, path, base, relative) == stores::below_store(
            b,
            path,
            base,
            relative,
        ),
{
}

proof fn lemma_managed(
    a: Seq<EntryModel>,
    b: Seq<EntryModel>,
    cwd: PathModel,
    places: PlacesModel,
    path: PathModel,
)
    requires
        calm(a, b, cwd),
        stores_apart(a, places, cwd),
        !inside(path, cwd),
    ensures
        stores::managed(a, places, path, ResolveScope::User) == stores::managed(
            b,
            places,
            path,
            ResolveScope::User,
        ),
{
    reveal_strlit("packages");
    if let Ok(agent) = places.agent {
        if let Some(top) = paths::canonical_at(a, agent) {
            lemma_apart_below(top, "packages"@, cwd);
        }
        lemma_below_store(a, b, cwd, path, agent, "packages"@);
    }
    if let Some(home) = places.home {
        lemma_below_store(a, b, cwd, path, home, ".pi/agent/packages"@);
    }
    assert(stores::in_project_store(a, path) == stores::in_project_store(b, path));
}

proof fn lemma_git_roots(
    a: Seq<EntryModel>,
    cwd: PathModel,
    places: PlacesModel,
)
    requires
        stores_apart(a, places, cwd),
    ensures
        all_apart(stores::git_roots(places, ResolveScope::User), cwd),
        all_apart(stores::package_stores(places, ResolveScope::User), cwd),
{
    reveal_strlit("git");
    reveal_strlit("packages");
    if let Ok(agent) = places.agent {
        lemma_apart_below(agent, "git"@, cwd);
        lemma_apart_below(agent, "packages"@, cwd);
    }
}

proof fn lemma_git_root_from(
    a: Seq<EntryModel>,
    b: Seq<EntryModel>,
    cwd: PathModel,
    roots: Seq<PathModel>,
    path: PathModel,
    i: int,
)
    requires
        calm(a, b, cwd),
        all_apart(roots, cwd),
    ensures
        stores::git_root_from(a, roots, path, i) == stores::git_root_from(b, roots, path, i),
        stores::store_from(a, roots, path, i) == stores::store_from(b, roots, path, i),
    decreases roots.len() - i,
{
    if 0 <= i < roots.len() {
        assert(apart(roots[i], cwd));
        lemma_git_root_from(a, b, cwd, roots, path, i + 1);
    }
}

proof fn lemma_checkout_from(
    a: Seq<EntryModel>,
    b: Seq<EntryModel>,
    cwd: PathModel,
    roots: Seq<PathModel>,
    relative: PathModel,
    i: int,
)
    requires
        calm(a, b, cwd),
        all_apart(roots, cwd),
        relative.relative(),
    ensures
        stores::checkout_from(a, roots, relative, i) == stores::checkout_from(
            b,
            roots,
            relative,
            i,
        ),
    decreases roots.len() - i,
{
    if 0 <= i < roots.len() {
        reveal_strlit(".git");
        let target = paths::joined_path(roots[i], relative);
        lemma_apart_join(roots[i], relative, cwd);
        lemma_apart_below(target, ".git"@, cwd);
        assert(stores::checkout_at(a, roots[i], relative) == stores::checkout_at(
            b,
            roots[i],
            relative,
        ));
        lemma_checkout_from(a, b, cwd, roots, relative, i + 1);
    }
}

/// The first segment of a text that starts with `/` is empty.
proof fn lemma_first_segment(s: Seq<char>)
    requires
        text::first_is(s, '/'),
    ensures
        text::pieces(s, "/"@).len() > 0,
        text::pieces(s, "/"@)[0].len() == 0,
{
    reveal_strlit("/");
    assert(s.subrange(0, 1) =~= "/"@);
    assert(text::stands_at(s, "/"@, 0));
    text::lemma_index_from(s, "/"@, 0);
}

/// The place of a git source below a store is relative.
proof fn lemma_git_is_relative(platform: Platform, spec: Seq<char>)
    ensures
        git_source::git_source_of(spec) matches Some(git) ==> stores::git_relative(
            platform,
            git,
        ).relative(),
{
    git_source::lemma_git_source_is_contained(spec);
    if let Some(git) = git_source::git_source_of(spec) {
        if text::first_is(git.host, '/') {
            assert(git.host.contains('/'));
        }
        if text::first_is(git.path, '/') {
            lemma_first_segment(git.path);
            assert(git_source::plain_segment(text::pieces(git.path, "/"@)[0]));
        }
        lemma_harmless(platform, git.host);
        lemma_harmless(platform, git.path);
    }
}

proof fn lemma_git_stores(
    a: Seq<EntryModel>,
    b: Seq<EntryModel>,
    cwd: PathModel,
    places: PlacesModel,
    root: PathModel,
)
    requires
        calm(a, b, cwd),
        stores_apart(a, places, cwd),
        clear(a, root, cwd),
    ensures
        stores::git_root_of(a, places, root, ResolveScope::User) == stores::git_root_of(
            b,
            places,
            root,
            ResolveScope::User,
        ),
        stores::direct_store_of(a, places, root, ResolveScope::User) == stores::direct_store_of(
            b,
            places,
            root,
            ResolveScope::User,
        ),
{
    reveal_strlit(".git");
    lemma_git_roots(a, cwd, places);
    lemma_apart_below(root, ".git"@, cwd);
    lemma_git_root_from(
        a,
        b,
        cwd,
        stores::git_roots(places, ResolveScope::User),
        root,
        0,
    );
    if let Some(parent) = paths::parent_of(root) {
        lemma_git_root_from(
            a,
            b,
            cwd,
            stores::package_stores(places, ResolveScope::User),
            parent,
            0,
        );
    }
}

proof fn lemma_git_target(
    a: Seq<EntryModel>,
    b: Seq<EntryModel>,
    cwd: PathModel,
    places: PlacesModel,
    spec: Seq<char>,
)
    requires
        calm(a, b, cwd),
        stores_apart(a, places, cwd),
    ensures
        git_source::git_source_of(spec) matches Some(git) ==> stores::git_target(
            a,
            places,
            ResolveScope::User,
            git,
        ) == stores::git_target(b, places, ResolveScope::User, git),
{
    lemma_git_roots(a, cwd, places);
    lemma_git_is_relative(places.cwd.platform, spec);
    if let Some(git) = git_source::git_source_of(spec) {
        lemma_checkout_from(
            a,
            b,
            cwd,
            stores::git_roots(places, ResolveScope::User),
            stores::git_relative(places.cwd.platform, git),
            0,
        );
    }
}

proof fn lemma_marker(
    a: Seq<EntryModel>,
    b: Seq<EntryModel>,
    cwd: PathModel,
    root: PathModel,
    name: Seq<char>,
)
    requires
        calm(a, b, cwd),
        clear(a, root, cwd),
    ensures
        stores::marker_at(a, root, name) == stores::marker_at(b, root, name),
{
    reveal_strlit(".rpi-package-source.json");
    lemma_apart_below(root, stores::PACKAGE_SOURCE_MARKER@, cwd);
}

proof fn lemma_classified_alike(
    a: Seq<EntryModel>,
    b: Seq<EntryModel>,
    places: PlacesModel,
    root: PathModel,
    spec: Seq<char>,
    name: Seq<char>,
    scope: ResolveScope,
)
    requires
        stores::npm_root_of(a, places, root, scope) == stores::npm_root_of(b, places, root, scope),
        stores::managed(a, places, root, scope) == stores::managed(b, places, root, scope),
        stores::git_root_of(a, places, root, scope) == stores::git_root_of(b, places, root, scope),
        stores::direct_store_of(a, places, root, scope) == stores::direct_store_of(
            b,
            places,
            root,
            scope,
        ),
        stores::marker_at(a, root, name) == stores::marker_at(b, root, name),
        git_source::git_source_of(spec) matches Some(git) ==> stores::git_target(
            a,
            places,
            scope,
            git,
        ) == stores::git_target(b, places, scope, git),
    ensures
        stores::classified(a, places, root, spec, name, scope) == stores::classified(
            b,
            places,
            root,
            spec,
            name,
            scope,
        ),
{
}

proof fn lemma_classified(
    a: Seq<EntryModel>,
    b: Seq<EntryModel>,
    cwd: PathModel,
    places: PlacesModel,
    root: PathModel,
    spec: Seq<char>,
    name: Seq<char>,
)
    requires
        calm(a, b, cwd),
        stores_apart(a, places, cwd),
        clear_both(a, root, cwd),
    ensures
        stores::classified(a, places, root, spec, name, ResolveScope::User) == stores::classified(
            b,
            places,
            root,
            spec,
            name,
            ResolveScope::User,
        ),
        stores::git_root_of(a, places, root, ResolveScope::User) == stores::git_root_of(
            b,
            places,
            root,
            ResolveScope::User,
        ),
{
    lemma_npm_root(a, b, cwd, places, root);
    lemma_managed(a, b, cwd, places, root);
    lemma_git_stores(a, b, cwd, places, root);
    lemma_git_target(a, b, cwd, places, spec);
    lemma_marker(a, b, cwd, root, name);
    lemma_classified_alike(a, b, places, root, spec, name, ResolveScope::User);
}

/// Whether the resources of a package have nothing to do with `cwd`.
pub open spec fn lists_apart(p: PackageModel, cwd: PathModel) -> bool {
    &&& all_apart(p.extensions, cwd)
    &&& all_apart(p.skills, cwd)
    &&& all_apart(p.prompts, cwd)
    &&& all_apart(p.themes, cwd)
}

proof fn lemma_with_filter(
    a: Seq<EntryModel>,
    b: Seq<EntryModel>,
    cwd: PathModel,
    p: PackageModel,
)
    requires
        calm(a, b, cwd),
        clear_both(a, p.root, cwd),
        lists_apart(p, cwd),
    ensures
        packages::with_filter(a, p) == packages::with_filter(b, p),
        lists_apart(packages::with_filter(a, p), cwd),
{
    if let Some(f) = p.filter {
        lemma_filtered(
            a,
            b,
            cwd,
            p.root,
            p.extensions,
            f.extensions,
            f.autoload,
            FilterResourceKind::Extensions,
        );
        lemma_filtered(
            a,
            b,
            cwd,
            p.root,
            p.skills,
            f.skills,
            f.autoload,
            FilterResourceKind::Skills,
        );
        lemma_filtered(
            a,
            b,
            cwd,
            p.root,
            p.prompts,
            f.prompts,
            f.autoload,
            FilterResourceKind::Prompts,
        );
        lemma_filtered(
            a,
            b,
            cwd,
            p.root,
            p.themes,
            f.themes,
            f.autoload,
            FilterResourceKind::Themes,
        );
    }
}

/// What a package of the user's settings is like: one that is there has
/// nothing to do with `cwd`, and one that is missing has no resources.
pub open spec fn settled(fs: Seq<EntryModel>, p: PackageModel, cwd: PathModel) -> bool {
    &&& p.scope == ResolveScope::User
    &&& p.npm_install_root matches Some(root) ==> apart(root, cwd)
    &&& lists_apart(p, cwd)
    &&& if p.missing_install {
        &&& p.extensions.len() == 0 && p.skills.len() == 0
        &&& p.prompts.len() == 0 && p.themes.len() == 0
        &&& p.source is Npm ==> p.npm_install_root is Some
        &&& p.source is Npm || (p.source is Git && git_source::git_source_of(p.spec) is Some)
    } else {
        clear_both(fs, p.root, cwd)
    }
}

proof fn lemma_package_at(
    a: Seq<EntryModel>,
    b: Seq<EntryModel>,
    cwd: PathModel,
    places: PlacesModel,
    root: PathModel,
    spec: Seq<char>,
    filter: Option<FilterModel>,
    global: Option<PathModel>,
    manifest: Option<Seq<char>>,
    name: Seq<char>,
    source: SourceModel,
)
    requires
        calm(a, b, cwd),
        stores_apart(a, places, cwd),
        clear_both(a, root, cwd),
    ensures
        packages::package_at(
            a,
            places,
            root,
            spec,
            ResolveScope::User,
            filter,
            global,
            manifest,
            name,
            source,
        ) == packages::package_at(
            b,
            places,
            root,
            spec,
            ResolveScope::User,
            filter,
            global,
            manifest,
            name,
            source,
        ),
        settled(
            a,
            packages::package_at(
                a,
                places,
                root,
                spec,
                ResolveScope::User,
                filter,
                global,
                manifest,
                name,
                source,
            ),
            cwd,
        ),
{
    reveal_strlit("skills");
    reveal_strlit("prompts");
    reveal_strlit("themes");
    reveal_strlit("extensions");
    reveal_strlit("SYSTEM.md");
    reveal_strlit("APPEND_SYSTEM.md");
    lemma_resources(a, b, cwd, root, manifest, "skills"@, FilterResourceKind::Skills);
    lemma_resources(a, b, cwd, root, manifest, "prompts"@, FilterResourceKind::Prompts);
    lemma_resources(a, b, cwd, root, manifest, "themes"@, FilterResourceKind::Themes);
    lemma_resources(a, b, cwd, root, manifest, "extensions"@, FilterResourceKind::Extensions);
    lemma_files_of(
        a,
        b,
        cwd,
        root,
        resources::first_keyed(manifest, "systemPrompt"@, "system_prompt"@, "system"@),
        "SYSTEM.md"@,
    );
    lemma_files_of(
        a,
        b,
        cwd,
        root,
        resources::first_keyed(
            manifest,
            "appendSystemPrompt"@,
            "append_system_prompt"@,
            "appendSystem"@,
        ),
        "APPEND_SYSTEM.md"@,
    );
    lemma_npm_root(a, b, cwd, places, root);
    lemma_classified(a, b, cwd, places, root, spec, name);
}

proof fn lemma_loaded(
    a: Seq<EntryModel>,
    b: Seq<EntryModel>,
    cwd: PathModel,
    places: PlacesModel,
    root: PathModel,
    spec: Seq<char>,
    filter: Option<FilterModel>,
    global: Option<PathModel>,
)
    requires
        calm(a, b, cwd),
        stores_apart(a, places, cwd),
        clear_both(a, root, cwd),
    ensures
        packages::loaded(a, places, root, spec, ResolveScope::User, filter, global)
            == packages::loaded(b, places, root, spec, ResolveScope::User, filter, global),
        packages::loaded(a, places, root, spec, ResolveScope::User, filter, global) matches Ok(p)
            ==> settled(a, p, cwd),
{
    reveal_strlit("package.json");
    lemma_apart_below(root, "package.json"@, cwd);
    assert(packages::manifest_of(a, root) == packages::manifest_of(b, root));
    lemma_managed(a, b, cwd, places, root);
    match packages::manifest_of(a, root) {
        Err(_) => {},
        Ok(manifest) => {
            let manifest_name = packages::manifest_string(manifest, "name"@);
            match packages::named_source(root, spec, global is Some, manifest_name) {
                Err(_) => {},
                Ok(explicit) => {
                    let name = packages::display_name(root, spec, manifest_name);
                    lemma_classified(a, b, cwd, places, root, spec, name);
                    let source = if global is Some {
                        explicit->0
                    } else {
                        stores::classified(a, places, root, spec, name, ResolveScope::User)
                    };
                    lemma_package_at(
                        a,
                        b,
                        cwd,
                        places,
                        root,
                        spec,
                        filter,
                        global,
                        manifest,
                        name,
                        source,
                    );
                    let p = packages::package_at(
                        a,
                        places,
                        root,
                        spec,
                        ResolveScope::User,
                        filter,
                        global,
                        manifest,
                        name,
                        source,
                    );
                    lemma_with_filter(a, b, cwd, p);
                },
            }
        },
    }
}

/// Whether a place where a package may be has nothing to do with `cwd`; of a
/// manifest, its directory counts too.
pub open spec fn candidate_apart(fs: Seq<EntryModel>, c: PathModel, cwd: PathModel) -> bool {
    &&& clear_both(fs, c, cwd)
    &&& paths::name_of(c) == Some("package.json"@) ==> (paths::parent_of(c) matches Some(p)
        && clear_both(fs, p, cwd))
}

/// Whether the package manager's reports have nothing to do with `cwd`.
pub open spec fn reports_apart(
    fs: Seq<EntryModel>,
    legacy: Seq<(Seq<char>, PathModel)>,
    cwd: PathModel,
) -> bool {
    forall|i: int|
        0 <= i < legacy.len() ==> {
            &&& !inside((#[trigger] legacy[i]).1, cwd)
            &&& paths::canonical_at(fs, legacy[i].1) matches Some(found) ==> {
                &&& clear_both(fs, found, cwd)
                &&& packages::modules_above(fs, found) matches Some(root) ==> clear(fs, root, cwd)
            }
        }
}

/// Whether the places that an entry of the user's settings leads to have
/// nothing to do with `cwd`.
pub open spec fn entry_apart(
    fs: Seq<EntryModel>,
    places: PlacesModel,
    spec: Seq<char>,
    cwd: PathModel,
) -> bool {
    &&& packages::read_spec(spec) matches Some(read) ==> {
        let candidates = packages::places_of(places, spec, read, ResolveScope::User);
        forall|i: int|
            0 <= i < candidates.len() ==> candidate_apart(fs, #[trigger] candidates[i], cwd)
    }
    &&& {
        let targets = discovery::recovery_targets_of(places, spec, ResolveScope::User);
        forall|i: int| 0 <= i < targets.len() ==> !inside(#[trigger] targets[i], cwd)
    }
}

proof fn lemma_settled_on(
    a: Seq<EntryModel>,
    b: Seq<EntryModel>,
    cwd: PathModel,
    candidates: Seq<PathModel>,
    i: int,
)
    requires
        calm(a, b, cwd),
        forall|k: int|
            0 <= k < candidates.len() ==> candidate_apart(a, #[trigger] candidates[k], cwd),
    ensures
        packages::settled_on(a, candidates, i) == packages::settled_on(b, candidates, i),
        packages::settled_on(a, candidates, i) matches Some(root) ==> clear_both(a, root, cwd),
    decreases candidates.len() - i,
{
    if 0 <= i < candidates.len() {
        assert(candidate_apart(a, candidates[i], cwd));
        lemma_settled_on(a, b, cwd, candidates, i + 1);
    }
}

proof fn lemma_modules_end(parts: Seq<Seq<char>>, n: int)
    ensures
        npm_command::node_modules_end(parts, n) matches Some(k) ==> 0 < k <= n,
    decreases n,
{
    if n > 0 {
        lemma_modules_end(parts, n - 1);
    }
}

proof fn lemma_modules_above(
    a: Seq<EntryModel>,
    b: Seq<EntryModel>,
    cwd: PathModel,
    package: PathModel,
)
    requires
        calm(a, b, cwd),
        !inside(package, cwd),
    ensures
        packages::modules_above(a, package) == packages::modules_above(b, package),
{
    if package.parts.len() > 0 {
        lemma_modules_end(package.parts, package.parts.len() - 1);
        if let Some(n) = npm_command::node_modules_end(package.parts, package.parts.len() - 1) {
            lemma_above_not_inside(package, n, cwd);
        }
    }
}

proof fn lemma_global_package(
    a: Seq<EntryModel>,
    b: Seq<EntryModel>,
    cwd: PathModel,
    root: PathModel,
    name: Seq<char>,
)
    requires
        calm(a, b, cwd),
        clear(a, root, cwd),
    ensures
        npm_command::global_package(a, root, name) == npm_command::global_package(b, root, name),
{
    reveal_strlit("package.json");
    assert(npm_command::global_root(a, root) == npm_command::global_root(b, root));
    if let Some(top) = npm_command::global_root(a, root) {
        if npm_command::package_name(name) && paths::path_of(top.platform, name).relative() {
            let lexical = paths::below(top, name);
            lemma_apart_below(top, name, cwd);
            lemma_apart_below(lexical, "package.json"@, cwd);
            if let Some(found) = paths::canonical_at(a, lexical) {
                if paths::within(found, top) {
                    lemma_apart_within(found, top, cwd);
                    lemma_apart_below(found, "package.json"@, cwd);
                }
            }
        }
    }
}

proof fn lemma_reported(legacy: Seq<(Seq<char>, PathModel)>, name: Seq<char>, i: int)
    requires
        0 <= i,
    ensures
        packages::reported_from(legacy, name, i) matches Some(p) ==> exists|k: int|
            0 <= k < legacy.len() && (#[trigger] legacy[k]).1 == p,
    decreases legacy.len() - i,
{
    if i < legacy.len() && legacy[i].0 != name {
        lemma_reported(legacy, name, i + 1);
    }
}

proof fn lemma_legacy(
    a: Seq<EntryModel>,
    b: Seq<EntryModel>,
    cwd: PathModel,
    legacy: Seq<(Seq<char>, PathModel)>,
    name: Seq<char>,
)
    requires
        calm(a, b, cwd),
        reports_apart(a, legacy, cwd),
    ensures
        packages::legacy_package(a, legacy, name) == packages::legacy_package(b, legacy, name),
        packages::legacy_package(a, legacy, name) matches Some((root, _)) ==> clear_both(a, root, cwd),
{
    lemma_reported(legacy, name, 0);
    if let Some(reported) = packages::reported_from(legacy, name, 0) {
        let k = choose|k: int| 0 <= k < legacy.len() && (#[trigger] legacy[k]).1 == reported;
        assert(!inside(legacy[k].1, cwd));
        if let Some(found) = paths::canonical_at(a, reported) {
            lemma_modules_above(a, b, cwd, found);
            if let Some(root) = packages::modules_above(a, found) {
                lemma_global_package(a, b, cwd, root, name);
                if let Some(package) = npm_command::global_package(a, root, name) {
                    if paths::same_path(package, found) {
                        lemma_same_is_clear_both(a, cwd, found, package);
                    }
                }
            }
        }
    }
}

proof fn lemma_recovery(
    a: Seq<EntryModel>,
    b: Seq<EntryModel>,
    cwd: PathModel,
    failures: Seq<(PathModel, Seq<char>)>,
    targets: Seq<PathModel>,
    i: int,
)
    requires
        calm(a, b, cwd),
        forall|k: int| 0 <= k < targets.len() ==> !inside(#[trigger] targets[k], cwd),
    ensures
        discovery::recovery_failure(a, failures, targets, i) == discovery::recovery_failure(
            b,
            failures,
            targets,
            i,
        ),
    decreases targets.len() - i,
{
    if 0 <= i < targets.len() {
        assert(!inside(targets[i], cwd));
        lemma_recovery(a, b, cwd, failures, targets, i + 1);
    }
}

proof fn lemma_missing(
    a: Seq<EntryModel>,
    cwd: PathModel,
    places: PlacesModel,
    spec: Seq<char>,
    filter: Option<FilterModel>,
)
    requires
        stores_apart(a, places, cwd),
    ensures
        discovery::missing_of(places, spec, ResolveScope::User, filter) matches Ok(Some(p))
            ==> settled(a, p, cwd),
{
    reveal_strlit("npm");
    if let Ok(agent) = places.agent {
        lemma_apart_below(agent, "npm"@, cwd);
    }
}

proof fn lemma_identity(a: Seq<EntryModel>, b: Seq<EntryModel>, cwd: PathModel, p: PackageModel)
    requires
        calm(a, b, cwd),
        settled(a, p, cwd),
    ensures
        packages::identity_of(a, p) == packages::identity_of(b, p),
{
    if !p.missing_install {
        lemma_resolved_is_clear(a, b, cwd, p.root);
    }
}

/// Whether every package of a list is settled.
pub open spec fn all_settled(fs: Seq<EntryModel>, list: Seq<PackageModel>, cwd: PathModel) -> bool {
    forall|i: int| 0 <= i < list.len() ==> settled(fs, #[trigger] list[i], cwd)
}

/// A lookup in another picture of the file system.
pub open spec fn seen_in(l: LookupModel, fs: Seq<EntryModel>) -> LookupModel {
    LookupModel { fs, ..l }
}

/// Whether a lookup of the user's packages has nothing to do with `cwd`.
pub open spec fn lookup_apart(l: LookupModel, cwd: PathModel) -> bool {
    &&& l.scope == ResolveScope::User
    &&& stores_apart(l.fs, l.places, cwd)
    &&& reports_apart(l.fs, l.legacy, cwd)
}

proof fn lemma_resolution(l: LookupModel, b: Seq<EntryModel>, cwd: PathModel, spec: Seq<char>)
    requires
        calm(l.fs, b, cwd),
        lookup_apart(l, cwd),
        entry_apart(l.fs, l.places, spec, cwd),
    ensures
        packages::resolution_of(l.fs, l.places, spec, l.scope, l.legacy) == packages::resolution_of(
            b,
            l.places,
            spec,
            l.scope,
            l.legacy,
        ),
        packages::resolution_of(l.fs, l.places, spec, l.scope, l.legacy) matches Some((root, _))
            ==> clear_both(l.fs, root, cwd),
{
    if let Some(read) = packages::read_spec(spec) {
        let candidates = packages::places_of(l.places, spec, read, l.scope);
        lemma_settled_on(l.fs, b, cwd, candidates, 0);
        lemma_legacy(l.fs, b, cwd, l.legacy, read.name);
    }
}

/// An entry adds the same where all that it asks for is the same.
proof fn lemma_entry_alike(
    l: LookupModel,
    b: Seq<EntryModel>,
    cwd: PathModel,
    entry: SettingModel,
    d: DiscoveryModel,
)
    requires
        ({
            let spec = entry.source;
            let targets = discovery::recovery_targets_of(l.places, spec, l.scope);
            let found = packages::resolution_of(l.fs, l.places, spec, l.scope, l.legacy);
            &&& discovery::recovery_failure(l.fs, l.recovery_failures, targets, 0)
                == discovery::recovery_failure(b, l.recovery_failures, targets, 0)
            &&& found == packages::resolution_of(b, l.places, spec, l.scope, l.legacy)
            &&& discovery::missing_of(l.places, spec, l.scope, entry.filter) matches Ok(Some(p))
                ==> settled(l.fs, p, cwd) && packages::identity_of(l.fs, p)
                == packages::identity_of(b, p)
            &&& found matches Some((root, global)) ==> {
                let p = packages::loaded(
                    l.fs,
                    l.places,
                    root,
                    spec,
                    l.scope,
                    entry.filter,
                    global,
                );
                &&& packages::path_key(l.fs, root) == packages::path_key(b, root)
                &&& p == packages::loaded(
                    b,
                    l.places,
                    root,
                    spec,
                    l.scope,
                    entry.filter,
                    global,
                )
                &&& p matches Ok(p) ==> settled(l.fs, p, cwd)
            }
        }),
        all_settled(l.fs, d.packages, cwd),
    ensures
        discovery::after_entry(l, entry, d) == discovery::after_entry(seen_in(l, b), entry, d),
        all_settled(l.fs, discovery::after_entry(l, entry, d).packages, cwd),
{
    reveal(discovery::after_entry);
    let after = discovery::after_entry(l, entry, d).packages;
    assert forall|i: int| 0 <= i < after.len() implies settled(
        l.fs,
        #[trigger] after[i],
        cwd,
    ) by {
        if i < d.packages.len() {
            assert(settled(l.fs, d.packages[i], cwd));
        }
    }
}

proof fn lemma_entry(
    l: LookupModel,
    b: Seq<EntryModel>,
    cwd: PathModel,
    entry: SettingModel,
    d: DiscoveryModel,
)
    requires
        calm(l.fs, b, cwd),
        lookup_apart(l, cwd),
        entry_apart(l.fs, l.places, entry.source, cwd),
        all_settled(l.fs, d.packages, cwd),
    ensures
        discovery::after_entry(l, entry, d) == discovery::after_entry(seen_in(l, b), entry, d),
        all_settled(l.fs, discovery::after_entry(l, entry, d).packages, cwd),
{
    let a = l.fs;
    let spec = entry.source;
    lemma_recovery(
        a,
        b,
        cwd,
        l.recovery_failures,
        discovery::recovery_targets_of(l.places, spec, l.scope),
        0,
    );
    lemma_missing(a, cwd, l.places, spec, entry.filter);
    if let Ok(Some(p)) = discovery::missing_of(l.places, spec, l.scope, entry.filter) {
        lemma_identity(a, b, cwd, p);
    }
    lemma_resolution(l, b, cwd, spec);
    if let Some((root, global)) = packages::resolution_of(a, l.places, spec, l.scope, l.legacy) {
        lemma_resolved_is_clear(a, b, cwd, root);
        lemma_loaded(a, b, cwd, l.places, root, spec, entry.filter, global);
    }
    lemma_entry_alike(l, b, cwd, entry, d);
}

proof fn lemma_entries(
    l: LookupModel,
    b: Seq<EntryModel>,
    cwd: PathModel,
    entries: Seq<SettingModel>,
    n: int,
)
    requires
        0 <= n <= entries.len(),
        calm(l.fs, b, cwd),
        lookup_apart(l, cwd),
        forall|i: int|
            0 <= i < entries.len() ==> entry_apart(
                l.fs,
                l.places,
                (#[trigger] entries[i]).source,
                cwd,
            ),
    ensures
        discovery::after_entries(l, entries, n) == discovery::after_entries(
            seen_in(l, b),
            entries,
            n,
        ),
        all_settled(l.fs, discovery::after_entries(l, entries, n).packages, cwd),
    decreases n,
{
    if n > 0 {
        lemma_entries(l, b, cwd, entries, n - 1);
        lemma_entry(
            l,
            b,
            cwd,
            entries[n - 1],
            discovery::after_entries(l, entries, n - 1),
        );
    }
}

/// A package without resources stays without them.
proof fn lemma_nothing_changes(
    fs: Seq<EntryModel>,
    root: PathModel,
    patterns: Seq<Seq<char>>,
    kind: FilterResourceKind,
)
    ensures
        resources::changed(fs, root, seq![], patterns, kind) == Seq::<PathModel>::empty(),
{
    let none = Seq::<PathModel>::empty();
    let top = resources::resolved(fs, root);
    assert(resources::inventory(fs, top, none, kind) =~= none);
    assert(resources::files_among(fs, none, 0) =~= none);
    assert(!resources::some_dir(fs, none));
    assert(resources::turned_on(fs, none, 0, patterns, top, kind, none) =~= none);
}

proof fn lemma_delta(
    a: Seq<EntryModel>,
    b: Seq<EntryModel>,
    cwd: PathModel,
    p: PackageModel,
    current: Seq<PathModel>,
    patterns: Option<Seq<Seq<char>>>,
    kind: FilterResourceKind,
)
    requires
        calm(a, b, cwd),
        all_apart(current, cwd),
        if p.missing_install {
            current.len() == 0
        } else {
            clear_both(a, p.root, cwd)
        },
    ensures
        discovery::delta_of(a, p.root, current, patterns, kind) == discovery::delta_of(
            b,
            p.root,
            current,
            patterns,
            kind,
        ),
        all_apart(discovery::delta_of(a, p.root, current, patterns, kind), cwd),
        p.missing_install ==> discovery::delta_of(a, p.root, current, patterns, kind).len() == 0,
{
    if let Some(patterns) = patterns {
        if p.missing_install {
            assert(current =~= seq![]);
            lemma_nothing_changes(a, p.root, patterns, kind);
            lemma_nothing_changes(b, p.root, patterns, kind);
        } else {
            lemma_changed(a, b, cwd, p.root, current, patterns, kind);
        }
    }
}

proof fn lemma_with_delta(
    a: Seq<EntryModel>,
    b: Seq<EntryModel>,
    cwd: PathModel,
    p: PackageModel,
    f: FilterModel,
)
    requires
        calm(a, b, cwd),
        settled(a, p, cwd),
    ensures
        discovery::with_delta(a, p, f) == discovery::with_delta(b, p, f),
        settled(a, discovery::with_delta(a, p, f), cwd),
{
    lemma_delta(a, b, cwd, p, p.extensions, f.extensions, FilterResourceKind::Extensions);
    lemma_delta(a, b, cwd, p, p.skills, f.skills, FilterResourceKind::Skills);
    lemma_delta(a, b, cwd, p, p.prompts, f.prompts, FilterResourceKind::Prompts);
    lemma_delta(a, b, cwd, p, p.themes, f.themes, FilterResourceKind::Themes);
}

proof fn lemma_position(keys: Seq<Seq<char>>, key: Seq<char>, i: int)
    requires
        0 <= i,
    ensures
        discovery::position_of(keys, key, i) matches Some(k) ==> i <= k < keys.len(),
    decreases keys.len() - i,
{
    if i < keys.len() && keys[i] != key {
        lemma_position(keys, key, i + 1);
    }
}

proof fn lemma_merged(
    a: Seq<EntryModel>,
    b: Seq<EntryModel>,
    cwd: PathModel,
    all: Seq<PackageModel>,
    n: int,
)
    requires
        0 <= n <= all.len(),
        calm(a, b, cwd),
        all_settled(a, all, cwd),
    ensures
        discovery::merged_packages(a, all, n) == discovery::merged_packages(b, all, n),
        all_settled(a, discovery::merged_packages(a, all, n).packages, cwd),
        discovery::merged_packages(a, all, n).packages.len() == discovery::merged_packages(
            a,
            all,
            n,
        ).identities.len(),
    decreases n,
{
    if n > 0 {
        lemma_merged(a, b, cwd, all, n - 1);
        let m = discovery::merged_packages(a, all, n - 1);
        let p = all[n - 1];
        lemma_identity(a, b, cwd, p);
        let identity = packages::identity_of(a, p);
        lemma_position(m.identities, identity, 0);
        if let Some(i) = discovery::position_of(m.identities, identity, 0) {
            if let Some(f) = m.packages[i].filter {
                lemma_with_delta(a, b, cwd, p, f);
            }
        }
    }
}

/// Whether everything that the user's settings lead to has nothing to do with
/// the working directory.
pub open spec fn user_apart(w: Workspace) -> bool {
    let cwd = w.places@.cwd;
    let entries = discovery::user_entries_of(*w.user_settings);
    &&& stores_apart(w.fs@, w.places@, cwd)
    &&& reports_apart(w.fs@, packages::legacy_views(w.legacy@), cwd)
    &&& forall|i: int|
        0 <= i < entries.len() ==> entry_apart(
            w.fs@,
            w.places@,
            (#[trigger] entries[i]).source,
            cwd,
        )
}

/// Whether two workspaces differ at most in what lies below their working
/// directory, and in the settings of the project.
pub open spec fn same_but_for_cwd(v: Workspace, w: Workspace) -> bool {
    &&& v.places@ == w.places@
    &&& *v.user_settings == *w.user_settings
    &&& discovery::recovery_views(v.recovery_failures@) == discovery::recovery_views(
        w.recovery_failures@,
    )
    &&& packages::legacy_views(v.legacy@) == packages::legacy_views(w.legacy@)
    &&& calm(v.fs@, w.fs@, v.places@.cwd)
}

proof fn lemma_user_lookup(v: Workspace, w: Workspace, recover: bool, global: bool)
    requires
        same_but_for_cwd(v, w),
        user_apart(v),
    ensures
        discovery::discovered(
            runtime_plan::lookup_of(v, ResolveScope::User, recover, global),
            discovery::user_entries_of(*v.user_settings),
        ) == discovery::discovered(
            runtime_plan::lookup_of(w, ResolveScope::User, recover, global),
            discovery::user_entries_of(*w.user_settings),
        ),
        all_settled(
            v.fs@,
            discovery::discovered(
                runtime_plan::lookup_of(v, ResolveScope::User, recover, global),
                discovery::user_entries_of(*v.user_settings),
            ).packages,
            v.places@.cwd,
        ),
{
    let l = runtime_plan::lookup_of(v, ResolveScope::User, recover, global);
    let entries = discovery::user_entries_of(*v.user_settings);
    assert(seen_in(l, w.fs@) =~= runtime_plan::lookup_of(w, ResolveScope::User, recover, global));
    lemma_entries(l, w.fs@, v.places@.cwd, entries, entries.len() as int);
}

proof fn lemma_user_configured(v: Workspace, w: Workspace, recover: bool, global: bool)
    requires
        same_but_for_cwd(v, w),
        user_apart(v),
    ensures
        runtime_plan::configured(v, false, recover, global) == runtime_plan::configured(
            w,
            false,
            recover,
            global,
        ),
        all_settled(
            v.fs@,
            runtime_plan::configured(v, false, recover, global).packages,
            v.places@.cwd,
        ),
{
    lemma_user_lookup(v, w, recover, global);
    let user = discovery::discovered(
        runtime_plan::lookup_of(v, ResolveScope::User, recover, global),
        discovery::user_entries_of(*v.user_settings),
    );
    let none = Seq::<SettingModel>::empty();
    let project = discovery::discovered(
        runtime_plan::lookup_of(v, ResolveScope::Project, recover, global),
        none,
    );
    let other = discovery::discovered(
        runtime_plan::lookup_of(w, ResolveScope::Project, recover, global),
        none,
    );
    assert(project.packages =~= seq![] && other.packages =~= seq![]);
    assert(project.diagnostics =~= other.diagnostics);
    let all = project.packages + user.packages;
    assert(all =~= user.packages);
    lemma_merged(v.fs@, w.fs@, v.places@.cwd, all, all.len() as int);
}

proof fn lemma_mismatches(
    a: Seq<EntryModel>,
    b: Seq<EntryModel>,
    cwd: PathModel,
    list: Seq<PackageModel>,
    n: int,
    message: Seq<char>,
)
    requires
        0 <= n <= list.len(),
        calm(a, b, cwd),
        all_settled(a, list, cwd),
    ensures
        runtime_plan::mismatches(a, list, n, message) == runtime_plan::mismatches(
            b,
            list,
            n,
            message,
        ),
    decreases n,
{
    if n > 0 {
        lemma_mismatches(a, b, cwd, list, n - 1, message);
        lemma_identity(a, b, cwd, list[n - 1]);
    }
}

proof fn lemma_unfailed(
    a: Seq<EntryModel>,
    b: Seq<EntryModel>,
    cwd: PathModel,
    list: Seq<PackageModel>,
    n: int,
    failures: Seq<FailureModel>,
)
    requires
        0 <= n <= list.len(),
        calm(a, b, cwd),
        all_settled(a, list, cwd),
    ensures
        runtime_plan::unfailed(a, list, n, failures) == runtime_plan::unfailed(
            b,
            list,
            n,
            failures,
        ),
    decreases n,
{
    if n > 0 {
        lemma_unfailed(a, b, cwd, list, n - 1, failures);
        lemma_identity(a, b, cwd, list[n - 1]);
    }
}

/// Whether a plan installs nothing within `cwd`: neither in an npm root nor
/// in a package's own directory, and git packages only in the user's store.
pub open spec fn plan_apart(plan: PlanModel, cwd: PathModel) -> bool {
    &&& forall|i: int|
        0 <= i < plan.npm_roots.len() ==> apart((#[trigger] plan.npm_roots[i]).root, cwd)
    &&& forall|i: int|
        0 <= i < plan.standalone.len() ==> apart((#[trigger] plan.standalone[i]).root, cwd)
    &&& forall|i: int|
        0 <= i < plan.missing_git.len() ==> (#[trigger] plan.missing_git[i]).user_scope
}

proof fn lemma_root_slot(roots: Seq<runtime_plan::RootModel>, root: PathModel, i: int)
    requires
        0 <= i <= roots.len(),
    ensures
        i <= runtime_plan::root_slot(roots, root, i) <= roots.len(),
    decreases roots.len() - i,
{
    if i < roots.len() && paths::path_before(roots[i].root, root) {
        lemma_root_slot(roots, root, i + 1);
    }
}

proof fn lemma_store_root(a: Seq<EntryModel>, cwd: PathModel, places: PlacesModel, p: PackageModel)
    requires
        stores_apart(a, places, cwd),
        settled(a, p, cwd),
    ensures
        runtime_plan::store_root_of(p, places, false) matches Ok(Some(root)) ==> apart(root, cwd),
        runtime_plan::needs_install(p) && runtime_plan::store_root_of(p, places, false) == Ok::<
            Option<PathModel>,
            Seq<char>,
        >(None) ==> apart(p.root, cwd),
{
    reveal_strlit("npm");
    if let Ok(agent) = places.agent {
        lemma_apart_below(agent, "npm"@, cwd);
    }
}

proof fn lemma_installs_apart(
    roots: Seq<runtime_plan::RootModel>,
    root: PathModel,
    install: runtime_plan::InstallModel,
    cwd: PathModel,
)
    requires
        forall|i: int| 0 <= i < roots.len() ==> apart((#[trigger] roots[i]).root, cwd),
        apart(root, cwd),
    ensures
        forall|i: int|
            0 <= i < runtime_plan::with_install(roots, root, install).len() ==> apart(
                (#[trigger] runtime_plan::with_install(roots, root, install)[i]).root,
                cwd,
            ),
{
    let after = runtime_plan::with_install(roots, root, install);
    let k = runtime_plan::root_slot(roots, root, 0);
    lemma_root_slot(roots, root, 0);
    assert forall|i: int| 0 <= i < after.len() implies apart((#[trigger] after[i]).root, cwd) by {
        if k < roots.len() && paths::same_path(roots[k].root, root) {
            assert(after[i].root == roots[i].root);
        } else if i < k {
            assert(after[i] == roots[i]);
        } else if i > k {
            assert(after[i] == roots[i - 1]);
        }
    }
}

proof fn lemma_plan_step(
    a: Seq<EntryModel>,
    cwd: PathModel,
    places: PlacesModel,
    p: PackageModel,
    plan: PlanModel,
)
    requires
        stores_apart(a, places, cwd),
        settled(a, p, cwd),
        plan_apart(plan, cwd),
    ensures
        plan_apart(runtime_plan::after_planning(a, places, false, p, plan), cwd),
{
    let after = runtime_plan::after_planning(a, places, false, p, plan);
    lemma_store_root(a, cwd, places, p);
    if runtime_plan::needs_install(p) {
        if let Ok(Some(root)) = runtime_plan::store_root_of(p, places, false) {
            let install = runtime_plan::InstallModel {
                name: p.source->name,
                spec: p.source->spec,
                identity: packages::identity_of(a, p),
            };
            lemma_installs_apart(plan.npm_roots, root, install, cwd);
        }
    }
    assert forall|i: int| 0 <= i < after.standalone.len() implies apart(
        (#[trigger] after.standalone[i]).root,
        cwd,
    ) by {
        if i < plan.standalone.len() {
            assert(after.standalone[i] == plan.standalone[i]);
        }
    }
    assert forall|i: int| 0 <= i < after.missing_git.len() implies (
    #[trigger] after.missing_git[i]).user_scope by {
        if i < plan.missing_git.len() {
            assert(after.missing_git[i] == plan.missing_git[i]);
        }
    }
}

proof fn lemma_planned(
    a: Seq<EntryModel>,
    b: Seq<EntryModel>,
    cwd: PathModel,
    places: PlacesModel,
    list: Seq<PackageModel>,
    n: int,
)
    requires
        0 <= n <= list.len(),
        calm(a, b, cwd),
        stores_apart(a, places, cwd),
        all_settled(a, list, cwd),
    ensures
        runtime_plan::plan_of(a, places, false, list, n) == runtime_plan::plan_of(
            b,
            places,
            false,
            list,
            n,
        ),
        plan_apart(runtime_plan::plan_of(a, places, false, list, n), cwd),
    decreases n,
{
    if n > 0 {
        lemma_planned(a, b, cwd, places, list, n - 1);
        let p = list[n - 1];
        assert(settled(a, p, cwd));
        lemma_identity(a, b, cwd, p);
        let before = runtime_plan::plan_of(a, places, false, list, n - 1);
        assert(runtime_plan::after_planning(a, places, false, p, before)
            == runtime_plan::after_planning(b, places, false, p, before));
        lemma_plan_step(a, cwd, places, p, before);
    }
}

/// Where the project takes no part, nothing below the working directory
/// matters: two workspaces whose pictures of the file system agree on
/// everything else resolve the user's settings to the same packages, with and
/// without a network and after an installation, and plan the same
/// installations; and none of these touches anything below the working
/// directory. The settings and the stores of the user lie elsewhere.
pub proof fn lemma_global_settings_ignore_cwd(
    v: Workspace,
    w: Workspace,
    failures: Seq<FailureModel>,
)
    requires
        same_but_for_cwd(v, w),
        user_apart(v),
    ensures
        runtime_plan::runtime_step(v, false) == runtime_plan::runtime_step(w, false),
        plan_apart(runtime_plan::runtime_step(v, false).1, v.places@.cwd),
        runtime_plan::offline_of(v, false) == runtime_plan::offline_of(w, false),
        runtime_plan::after_install(v, false, failures) == runtime_plan::after_install(
            w,
            false,
            failures,
        ),
        discovery::discovered(
            runtime_plan::lookup_of(v, ResolveScope::User, false, true),
            discovery::user_entries_of(*v.user_settings),
        ) == discovery::discovered(
            runtime_plan::lookup_of(w, ResolveScope::User, false, true),
            discovery::user_entries_of(*w.user_settings),
        ),
{
    let (a, b) = (v.fs@, w.fs@);
    let cwd = v.places@.cwd;
    lemma_user_lookup(v, w, false, true);
    lemma_user_configured(v, w, true, true);
    lemma_user_configured(v, w, false, true);
    lemma_user_configured(v, w, false, false);
    let planned = runtime_plan::configured(v, false, true, true).packages;
    lemma_planned(a, b, cwd, v.places@, planned, planned.len() as int);
    let offline = runtime_plan::configured(v, false, false, false).packages;
    let unavailable = "configured npm version is unavailable while offline"@;
    lemma_mismatches(a, b, cwd, offline, offline.len() as int, unavailable);
    lemma_unfailed(
        a,
        b,
        cwd,
        offline,
        offline.len() as int,
        runtime_plan::mismatches(a, offline, offline.len() as int, unavailable),
    );
    let found = runtime_plan::configured(v, false, false, true).packages;
    let unsatisfied =
        "package manager completed but the installed npm version still does not satisfy settings"@;
    lemma_mismatches(a, b, cwd, found, found.len() as int, unsatisfied);
    let more = runtime_plan::mismatches(a, found, found.len() as int, unsatisfied);
    lemma_unfailed(
        a,
        b,
        cwd,
        found,
        found.len() as int,
        runtime_plan::with_failures(failures, more, more.len() as int),
    );
}

} // verus!
