//! Where checkouts and stores are found.

use vstd::prelude::*;

use crate::git_source::GitModel;
use crate::npm_command;
use crate::packages;
use crate::paths;
use crate::paths::{EntryModel, PathModel};
use crate::release;
use crate::stores;
use crate::stores::{PlacesModel, ResolveScope};
use crate::text;

verus! {

/// Whether a checkout lies at `relative` below the `k`th of `roots`, and below
/// none before it.
pub open spec fn first_checkout(
    fs: Seq<EntryModel>,
    roots: Seq<PathModel>,
    relative: PathModel,
    k: int,
) -> bool {
    &&& 0 <= k < roots.len()
    &&& stores::checkout_at(fs, roots[k], relative)
    &&& forall|j: int| 0 <= j < k ==> !stores::checkout_at(fs, #[trigger] roots[j], relative)
}

proof fn lemma_checkout_from(
    fs: Seq<EntryModel>,
    roots: Seq<PathModel>,
    relative: PathModel,
    i: int,
    k: int,
)
    requires
        0 <= i <= k,
        first_checkout(fs, roots, relative, k),
    ensures
        stores::checkout_from(fs, roots, relative, i) == paths::plain_at(
            fs,
            paths::joined_path(roots[k], relative),
        ),
    decreases k - i,
{
    if i < k {
        assert(!stores::checkout_at(fs, roots[i], relative));
        lemma_checkout_from(fs, roots, relative, i + 1, k);
    }
}

/// Of several checkouts of a repository that in the first root counts. A
/// directory is a checkout only where it has a `.git` directory of its own and
/// no link leads out of its root.
pub proof fn lemma_first_checkout_counts(
    fs: Seq<EntryModel>,
    places: PlacesModel,
    scope: ResolveScope,
    git: GitModel,
    k: int,
)
    requires
        first_checkout(
            fs,
            stores::git_roots(places, scope),
            stores::git_relative(places.cwd.platform, git),
            k,
        ),
    ensures
        ({
            let root = stores::git_roots(places, scope)[k];
            let target = paths::joined_path(
                root,
                stores::git_relative(places.cwd.platform, git),
            );
            &&& stores::git_target(fs, places, scope, git) == paths::plain_at(fs, target)
            &&& paths::real_dir_at(fs, paths::below(target, ".git"@))
            &&& paths::within(target, root)
            &&& stores::is_canonical(fs, root)
            &&& stores::is_canonical(fs, target)
        }),
{
    lemma_checkout_from(
        fs,
        stores::git_roots(places, scope),
        stores::git_relative(places.cwd.platform, git),
        0,
        k,
    );
}

/// The checkouts of the project come before those of the user, and are looked
/// at only for the project; those of the user only for the user.
pub proof fn lemma_checkout_roots(places: PlacesModel)
    ensures
        stores::git_roots(places, ResolveScope::Any) == stores::git_roots(
            places,
            ResolveScope::Project,
        ) + stores::git_roots(places, ResolveScope::User),
        stores::git_roots(places, ResolveScope::Project) == seq![
            paths::below(places.cwd, ".rpi/git"@),
            paths::below(places.cwd, ".pi/git"@),
        ],
        places.agent matches Ok(agent) ==> stores::git_roots(places, ResolveScope::User)[0]
            == paths::below(agent, "git"@),
        places.agent is Err && places.home is None ==> stores::git_roots(
            places,
            ResolveScope::User,
        ).len() == 0,
{
    assert(stores::git_roots(places, ResolveScope::Any) =~= stores::git_roots(
        places,
        ResolveScope::Project,
    ) + stores::git_roots(places, ResolveScope::User));
    assert(stores::git_roots(places, ResolveScope::Project) =~= seq![
        paths::below(places.cwd, ".rpi/git"@),
        paths::below(places.cwd, ".pi/git"@),
    ]);
}

proof fn lemma_store_from(
    fs: Seq<EntryModel>,
    list: Seq<PathModel>,
    parent: PathModel,
    i: int,
)
    requires
        0 <= i,
    ensures
        match stores::store_from(fs, list, parent, i) {
            Some(store) => paths::same_path(parent, store) && list.contains(store),
            None => forall|k: int|
                i <= k < list.len() && stores::is_canonical(fs, #[trigger] list[k])
                    ==> !paths::same_path(parent, list[k]),
        },
    decreases list.len() - i,
{
    if i < list.len() {
        lemma_store_from(fs, list, parent, i + 1);
        assert(list.contains(list[i]));
    }
}

/// A checkout that lies right in a store of packages is told by its `.git`
/// directory and by the directory that it lies in.
pub proof fn lemma_checkout_in_a_store(
    fs: Seq<EntryModel>,
    places: PlacesModel,
    path: PathModel,
    scope: ResolveScope,
)
    ensures
        stores::direct_store_of(fs, places, path, scope) matches Some(store) ==> paths::real_dir_at(
            fs,
            paths::below(path, ".git"@),
        ) && (paths::parent_of(path) matches Some(parent) && paths::same_path(parent, store))
            && stores::package_stores(places, scope).contains(store),
        !paths::real_dir_at(fs, paths::below(path, ".git"@)) ==> stores::direct_store_of(
            fs,
            places,
            path,
            scope,
        ) is None,
{
    if let Some(parent) = paths::parent_of(path) {
        lemma_store_from(fs, stores::package_stores(places, scope), parent, 0);
    }
}

/// What lies in the user's stores is managed whatever the project; what lies
/// in none of the stores is not.
pub proof fn lemma_managed_packages(
    fs: Seq<EntryModel>,
    a: PlacesModel,
    b: PlacesModel,
    path: PathModel,
    scope: ResolveScope,
)
    requires
        a.agent == b.agent,
        a.home == b.home,
    ensures
        scope != ResolveScope::Any ==> stores::managed(fs, a, path, scope) == stores::managed(
            fs,
            b,
            path,
            scope,
        ),
        a.agent matches Ok(agent) ==> (stores::below_store(fs, path, agent, "packages"@)
            ==> stores::managed(fs, a, path, scope)),
        paths::canonical_at(fs, path) is None ==> !stores::managed(fs, a, path, scope),
{
}

/// A byte that needs no escape stands for itself; any other is a percent sign
/// and two digits that stand for it.
pub proof fn lemma_bytes_are_escaped(b: u8)
    ensures
        ({
            let c = b as char;
            let plain = ('a' <= c && c <= 'z') || ('A' <= c && c <= 'Z') || ('0' <= c && c <= '9')
                || c == '-' || c == '.' || c == '_' || c == '~';
            let out = release::encoded_byte(b);
            &&& plain ==> out == seq![c]
            &&& !plain ==> out.len() == 3 && out[0] == '%' && (text::hex_value(
                out[1],
            ) matches Some(high) && (text::hex_value(out[2]) matches Some(low) && b == 16 * high
                + low))
        }),
{
}

/// A package found in a global directory lies there under its own name, and
/// its real path is that one.
pub proof fn lemma_global_package_is_in_place(
    fs: Seq<EntryModel>,
    root: PathModel,
    name: Seq<char>,
)
    ensures
        npm_command::global_package(fs, root, name) matches Some(found) ==> {
            &&& root.absolute()
            &&& paths::canonical_at(fs, root) matches Some(top) && top.absolute() && paths::name_of(
                top,
            ) == Some("node_modules"@) && paths::canonical_at(fs, paths::below(top, name)) == Some(
                found,
            ) && paths::within(found, top) && (paths::relative_to(found, top) matches Some(way)
                && paths::same_path(way, paths::path_of(top.platform, name)))
            &&& npm_command::package_name(name)
        },
        !root.absolute() ==> npm_command::global_package(fs, root, name) is None,
{
}

/// A package that a manager reported is taken where it is the package of that
/// name in the global directory above it, and in no other case.
pub proof fn lemma_reported_package_is_checked(
    fs: Seq<EntryModel>,
    legacy: Seq<(Seq<char>, PathModel)>,
    name: Seq<char>,
)
    ensures
        packages::legacy_package(fs, legacy, name) matches Some((package, root)) ==> {
            &&& exists|i: int| 0 <= i < legacy.len() && (#[trigger] legacy[i]).0 == name && (
            paths::canonical_at(fs, legacy[i].1) matches Some(found) && paths::same_path(
                package,
                found,
            ))
            &&& npm_command::global_package(fs, root, name) == Some(package)
        },
{
    if let Some((package, root)) = packages::legacy_package(fs, legacy, name) {
        lemma_reported(legacy, name, 0);
        let reported = packages::reported_from(legacy, name, 0)->0;
        let i = choose|i: int| 0 <= i < legacy.len() && #[trigger] legacy[i] == (name, reported);
        assert(legacy[i].0 == name);
    }
}

proof fn lemma_reported(legacy: Seq<(Seq<char>, PathModel)>, name: Seq<char>, i: int)
    requires
        0 <= i,
    ensures
        packages::reported_from(legacy, name, i) matches Some(p) ==> exists|k: int|
            i <= k < legacy.len() && #[trigger] legacy[k] == (name, p),
    decreases legacy.len() - i,
{
    if i < legacy.len() {
        lemma_reported(legacy, name, i + 1);
        if legacy[i].0 == name {
            assert(legacy[i] == (name, legacy[i].1));
        }
    }
}

} // verus!
