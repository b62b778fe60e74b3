//! How paths are read and put together.

use vstd::prelude::*;

use crate::laws::texts;
use crate::npm_command::Platform;
use crate::paths;
use crate::paths::{EntryModel, PathModel};
use crate::stores;
use crate::text;

verus! {

/// Whether `s` can be the name of a file on Unix.
pub open spec fn plain_name(s: Seq<char>) -> bool {
    s.len() > 0 && !s.contains('/') && s != seq!['.'] && s != seq!['.', '.']
}

proof fn lemma_pieces_end(s: Seq<char>, name: Seq<char>)
    requires
        !name.contains('/'),
    ensures
        text::pieces(s + seq!['/'] + name, "/"@) == text::pieces(s, "/"@).push(name),
    decreases s.len(),
{
    reveal_strlit("/");
    assert("/"@ =~= seq!['/']);
    text::lemma_index_from(s, "/"@, 0);
    texts::lemma_undivided(name, "/"@);
    match text::index_of(s, "/"@) {
        None => {
            assert(!s.contains('/')) by {
                if s.contains('/') {
                    let k = choose|k: int| 0 <= k < s.len() && s[k] == '/';
                    assert(s.subrange(k, k + 1) =~= "/"@);
                    assert(text::stands_at(s, "/"@, k));
                }
            }
            texts::lemma_divided(s, "/"@, name);
            texts::lemma_undivided(s, "/"@);
            assert(seq![s] + seq![name] =~= seq![s].push(name));
        },
        Some(i) => {
            let a = s.take(i);
            let b = s.skip(i + 1);
            assert(s.subrange(i, i + 1) == "/"@);
            assert(s[i] == s.subrange(i, i + 1)[0]);
            assert(a + "/"@ + b =~= s);
            assert(!a.contains('/')) by {
                if a.contains('/') {
                    let k = choose|k: int| 0 <= k < a.len() && a[k] == '/';
                    assert(s.subrange(k, k + 1) =~= "/"@);
                    assert(text::stands_at(s, "/"@, k));
                }
            }
            texts::lemma_divided(a, "/"@, b);
            lemma_pieces_end(b, name);
            texts::lemma_divided(a, "/"@, b + seq!['/'] + name);
            assert(a + "/"@ + (b + seq!['/'] + name) =~= s + seq!['/'] + name);
            assert(seq![a] + text::pieces(b, "/"@).push(name) =~= (seq![a] + text::pieces(
                b,
                "/"@,
            )).push(name));
        },
    }
}

proof fn lemma_components_agree(
    a: Seq<Seq<char>>,
    b: Seq<Seq<char>>,
    n: int,
    rooted: bool,
    verbatim: bool,
)
    requires
        0 <= n <= a.len(),
        n <= b.len(),
        forall|i: int| 0 <= i < n ==> a[i] == b[i],
    ensures
        paths::components(a, n, rooted, verbatim) == paths::components(b, n, rooted, verbatim),
    decreases n,
{
    if n > 0 {
        lemma_components_agree(a, b, n - 1, rooted, verbatim);
    }
}

/// A path with one more name behind it has that name as one more component; a
/// lone name is a relative path of one component.
pub proof fn lemma_path_reads(s: Seq<char>, name: Seq<char>)
    requires
        s.len() > 0,
        plain_name(name),
    ensures
        ({
            let longer = paths::path_of(Platform::Unix, s + seq!['/'] + name);
            let path = paths::path_of(Platform::Unix, s);
            &&& longer.parts == path.parts.push(name)
            &&& longer.rooted == path.rooted
            &&& path.rooted <==> s[0] == '/'
        }),
        paths::path_of(Platform::Unix, name).parts == seq![name],
        !paths::path_of(Platform::Unix, name).rooted,
        paths::path_of(Platform::Unix, seq!['/'] + name).parts == seq![name],
        paths::path_of(Platform::Unix, seq!['/'] + name).rooted,
{
    reveal_strlit("/");
    reveal_strlit(".");
    assert("/"@ =~= seq!['/']);
    assert("."@ =~= seq!['.']);
    lemma_pieces_end(s, name);
    let t = s + seq!['/'] + name;
    let before = text::pieces(s, "/"@);
    let all = text::pieces(t, "/"@);
    let rooted = text::first_is(s, '/');
    assert(t[0] == s[0]);
    lemma_components_agree(all, before, before.len() as int, rooted, false);
    assert(all[before.len() as int] == name);
    assert(paths::is_component(name, before.len() as int, rooted, false));
    texts::lemma_undivided(name, "/"@);
    assert(name.contains(name[0]));
    let alone = seq![name];
    assert(alone[0] == name);
    assert(paths::components(alone, 0, false, false) =~= seq![]);
    assert(paths::components(alone, 1, false, false) =~= seq![name]);
    let none: Seq<char> = seq![];
    lemma_pieces_end(none, name);
    texts::lemma_undivided(none, "/"@);
    let top = seq!['/'] + name;
    assert(none + seq!['/'] + name =~= top);
    let two = seq![none].push(name);
    assert(two[0] == none && two[1] == name);
    assert(paths::components(two, 0, true, false) =~= seq![]);
    assert(paths::components(two, 1, true, false) =~= seq![]);
    assert(paths::components(two, 2, true, false) =~= seq![name]);
}

/// A name put below a directory is the last component of the path, and the
/// directory is its parent.
pub proof fn lemma_below_and_back(base: PathModel, name: Seq<char>)
    requires
        base.platform == Platform::Unix,
        !paths::nowhere(base),
        plain_name(name),
    ensures
        ({
            let path = paths::below(base, name);
            &&& path.parts == base.parts.push(name)
            &&& paths::name_of(path) == Some(name)
            &&& paths::within(path, base)
            &&& paths::parent_of(path) matches Some(up) && paths::same_path(up, base)
        }),
{
    reveal_strlit(".");
    reveal_strlit("..");
    assert("."@ =~= seq!['.']);
    assert(".."@ =~= seq!['.', '.']);
    lemma_path_reads(seq!['a'], name);
    let path = paths::below(base, name);
    let rest = paths::path_of(Platform::Unix, name);
    assert(rest.parts =~= seq![name]);
    assert(rest.parts[0] == name);
    assert(path.parts =~= base.parts.push(name));
    assert(path.parts.take(base.parts.len() as int) =~= base.parts);
}

/// A relative path is written behind a directory with one slash between them;
/// an absolute one is taken instead of the directory.
pub proof fn lemma_texts_are_joined(base: Seq<char>, rest: Seq<char>)
    requires
        base.len() > 0,
        rest.len() > 0,
    ensures
        rest[0] == '/' ==> paths::joined_text(Platform::Unix, base, rest) == rest,
        rest[0] != '/' && base.last() != '/' ==> paths::joined_text(Platform::Unix, base, rest)
            == base + seq!['/'] + rest,
        rest[0] != '/' && base.last() == '/' ==> paths::joined_text(Platform::Unix, base, rest)
            == base + rest,
{
    reveal(paths::joined_text);
    reveal_strlit("/");
    assert("/"@ =~= seq!['/']);
}

/// A path lies in a project's store where its real path does: right below
/// `packages` below the project's settings.
pub proof fn lemma_project_store(fs: Seq<EntryModel>, path: PathModel, found: PathModel)
    requires
        paths::canonical_at(fs, path) == Some(found),
        found.parts.len() >= 3,
    ensures
        stores::in_project_store(fs, path) <==> found.parts[found.parts.len() - 2] == "packages"@
            && (found.parts[found.parts.len() - 3] == ".rpi"@ || found.parts[found.parts.len() - 3]
            == ".pi"@),
{
    reveal_strlit("packages");
    reveal_strlit(".rpi");
    reveal_strlit(".pi");
    reveal_strlit(".");
    reveal_strlit("..");
    let n = found.parts.len() as int;
    let store = paths::parent_of(found)->0;
    assert(store.parts =~= found.parts.take(n - 1));
    assert(store.parts.last() == found.parts[n - 2]);
    let config = paths::parent_of(store)->0;
    assert(config.parts =~= found.parts.take(n - 2));
    assert(config.parts.last() == found.parts[n - 3]);
    assert("packages"@.len() == 8 && "."@.len() == 1 && ".."@.len() == 2);
    assert(".rpi"@.len() == 4 && ".pi"@.len() == 3);
}

/// The root that a package manager installed a package in holds the package,
/// and is the directory asked about.
pub proof fn lemma_manager_holds_its_packages(
    fs: Seq<EntryModel>,
    path: PathModel,
    base: PathModel,
    relative: Seq<char>,
)
    ensures
        stores::manager_root(fs, path, base, relative) matches Some(root) ==> {
            &&& paths::canonical_at(fs, base) matches Some(top) && root == paths::below(
                top,
                relative,
            )
            &&& paths::within(
                path,
                paths::below(paths::below(base, relative), "node_modules"@),
            )
            &&& paths::plain_at(fs, path) matches Some(package) && paths::within(
                package,
                paths::plain_path(root),
            )
        },
        stores::below_store(fs, path, base, relative) ==> (paths::canonical_at(
            fs,
            path,
        ) matches Some(found) && (paths::canonical_at(fs, base) matches Some(top)
            && paths::within(found, paths::below(top, relative)) && !paths::same_path(
            found,
            paths::below(top, relative),
        ))),
{
    if stores::below_store(fs, path, base, relative) {
        let found = paths::canonical_at(fs, path)->0;
        let top = paths::canonical_at(fs, base)->0;
        let store = paths::below(top, relative);
        let way = paths::relative_to(found, store)->0;
        assert(found.parts.len() > store.parts.len());
    }
}

/// A package lies in a directory of packages under its own name, or under its
/// scope and its name; nothing else that lies there is a package.
pub proof fn lemma_shape_of_a_package(a: Seq<char>, b: Seq<char>, c: Seq<char>)
    requires
        a != seq!['.'] && a != seq!['.', '.'],
        b != seq!['.'] && b != seq!['.', '.'],
        a.len() > 1,
    ensures
        stores::package_shape(seq![a]) <==> a[0] != '@',
        stores::package_shape(seq![a, b]) <==> a[0] == '@',
        !stores::package_shape(seq![a, b, c]),
        !stores::package_shape(seq![]),
        !stores::package_shape(seq![a, seq!['.', '.']]),
{
    reveal_strlit(".");
    reveal_strlit("..");
    assert("."@ =~= seq!['.']);
    assert(".."@ =~= seq!['.', '.']);
    let one = seq![a];
    let two = seq![a, b];
    let up = seq![a, seq!['.', '.']];
    assert(one[0] == a);
    assert(two[0] == a && two[1] == b);
    assert(up[1] == ".."@);
    assert(seq![a, b, c].len() == 3);
}

} // verus!
