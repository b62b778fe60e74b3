//! The places where packages are kept, and what being in one of them proves
//! of a package.

use vstd::prelude::*;

use crate::git_source;
use crate::git_source::{GitModel, GitSpec};
use crate::json;
use crate::npm_command::{Platform, System};
use crate::npm_spec;
use crate::paths;
use crate::paths::{EntryModel, FsPath, FsTree, PathModel};
use crate::text;
use crate::version;

verus! {

/// The file that records where a package in a managed store came from.
pub const PACKAGE_SOURCE_MARKER: &'static str = ".rpi-package-source.json";

/// Whose settings a package is looked up for.
#[derive(Debug, Clone, Copy, PartialEq, Eq, Structural)]
pub enum ResolveScope {
    Any,
    Project,
    User,
}

impl ResolveScope {
    /// Whether the project's stores are looked at.
    #[verifier::allow_in_spec]
    pub fn in_project(self) -> bool
        returns
            (self == ResolveScope::Any || self == ResolveScope::Project),
    {
        self == ResolveScope::Any || self == ResolveScope::Project
    }

    /// Whether the user's stores are looked at.
    #[verifier::allow_in_spec]
    pub fn in_user(self) -> bool
        returns
            (self == ResolveScope::Any || self == ResolveScope::User),
    {
        self == ResolveScope::Any || self == ResolveScope::User
    }
}

/// The directories that the stores lie in.
pub struct Places {
    /// The project's directory.
    pub cwd: FsPath,
    /// The agent's own directory, or why there is none.
    pub agent: Result<FsPath, String>,
    /// The user's home directory.
    pub home: Option<FsPath>,
}

/// The model of `Places`.
#[verifier::ext_equal]
pub struct PlacesModel {
    pub cwd: PathModel,
    pub agent: Result<PathModel, Seq<char>>,
    pub home: Option<PathModel>,
}

impl View for Places {
    type V = PlacesModel;

    open spec fn view(&self) -> PlacesModel {
        PlacesModel {
            cwd: self.cwd@,
            agent: match self.agent {
                Ok(p) => Ok(p@),
                Err(m) => Err(m@),
            },
            home: paths::opt_path(self.home),
        }
    }
}

/// Whether a path below `node_modules` has the shape of one package's.
pub open spec fn package_shape(parts: Seq<Seq<char>>) -> bool {
    &&& forall|i: int| 0 <= i < parts.len() ==> #[trigger] parts[i] != ".."@ && parts[i] != "."@
    &&& (parts.len() == 1 && !text::first_is(parts[0], '@')) || (parts.len() == 2 && text::first_is(
        parts[0],
        '@',
    ) && parts[0].len() > 1)
}

fn has_package_shape(p: &FsPath) -> (r: bool)
    ensures
        r == package_shape(p@.parts),
{
    let mut i: usize = 0;
    while i < p.parts.len()
        invariant
            i <= p.parts@.len(),
            forall|j: int|
                0 <= j < i ==> #[trigger] p@.parts[j] != ".."@ && p@.parts[j] != "."@,
        decreases p.parts.len() - i,
    {
        assert(p@.parts[i as int] == p.parts@[i as int]@);
        if text::same(p.parts[i].as_str(), "..") || text::same(p.parts[i].as_str(), ".") {
            return false;
        }
        i += 1;
    }
    assert(p@.parts.len() == p.parts@.len());
    if p.parts.len() == 1 {
        assert(p@.parts[0] == p.parts@[0]@);
        !text::starts_with_char(p.parts[0].as_str(), '@')
    } else if p.parts.len() == 2 {
        assert(p@.parts[0] == p.parts@[0]@);
        text::starts_with_char(p.parts[0].as_str(), '@') && p.parts[0].as_str().unicode_len() > 1
    } else {
        false
    }
}

/// Whether `p` leads to itself: no link is on the way.
pub open spec fn is_canonical(fs: Seq<EntryModel>, p: PathModel) -> bool {
    paths::plain_at(fs, p) matches Some(c) && paths::same_path(c, p)
}

/// Whether `p` leads to itself: no link is on the way.
pub fn leads_to_itself(fs: &FsTree, p: &FsPath) -> (r: bool)
    ensures
        r == is_canonical(fs@, p@),
{
    match fs.resolve(p) {
        Some(c) => c.same(p),
        None => false,
    }
}

/// Whether `p` leads to itself, both in their plain form.
pub open spec fn is_plainly_canonical(fs: Seq<EntryModel>, p: PathModel) -> bool {
    paths::plain_at(fs, p) matches Some(c) && paths::same_path(c, paths::plain_path(p))
}

fn leads_plainly_to_itself(fs: &FsTree, p: &FsPath) -> (r: bool)
    ensures
        r == is_plainly_canonical(fs@, p@),
{
    match fs.resolve(p) {
        Some(c) => c.same(&p.plain()),
        None => false,
    }
}

/// Whether `p` leads to itself, letter for letter.
pub open spec fn is_literally_canonical(fs: Seq<EntryModel>, p: PathModel) -> bool {
    paths::canonical_at(fs, p) matches Some(c) && paths::same_path(c, p)
}

fn leads_literally_to_itself(fs: &FsTree, p: &FsPath) -> (r: bool)
    ensures
        r == is_literally_canonical(fs@, p@),
{
    match fs.canonicalize(p) {
        Some(c) => c.same(p),
        None => false,
    }
}

/// The install root `base`/`relative` of a package manager, where `path` is
/// exactly one package of its `node_modules`. The root and its
/// `node_modules` are directories without a link on the way, and the package
/// itself leads to a place within the root.
pub open spec fn manager_root(
    fs: Seq<EntryModel>,
    path: PathModel,
    base: PathModel,
    relative: Seq<char>,
) -> Option<PathModel> {
    let lexical = paths::below(paths::below(base, relative), "node_modules"@);
    match (
        paths::relative_to(path, lexical),
        paths::canonical_at(fs, base),
        paths::plain_at(fs, path),
    ) {
        (Some(rest), Some(top), Some(package)) => {
            let root = paths::below(top, relative);
            if package_shape(rest.parts) && is_plainly_canonical(fs, root) && is_plainly_canonical(
                fs,
                paths::below(root, "node_modules"@),
            ) && paths::within(package, paths::plain_path(root)) {
                Some(root)
            } else {
                None
            }
        },
        _ => None,
    }
}

/// The install root `base`/`relative` of a package manager, where `path` is
/// exactly one package of its `node_modules`.
pub fn package_manager_root_for_path(
    fs: &FsTree,
    path: &FsPath,
    base: &FsPath,
    relative_install_root: &str,
) -> (r: Option<FsPath>)
    ensures
        paths::opt_path(r) == manager_root(fs@, path@, base@, relative_install_root@),
{
    let lexical = base.below(relative_install_root).below("node_modules");
    let rest = match path.strip_prefix(&lexical) {
        Some(rest) => rest,
        None => {
            return None;
        },
    };
    if !has_package_shape(&rest) {
        return None;
    }
    let top = match fs.canonicalize(base) {
        Some(top) => top,
        None => {
            return None;
        },
    };
    let root = top.below(relative_install_root);
    if !leads_plainly_to_itself(fs, &root) || !leads_plainly_to_itself(
        fs,
        &root.below("node_modules"),
    ) {
        return None;
    }
    match fs.resolve(path) {
        Some(package) => if package.starts_with(&root.plain()) {
            Some(root)
        } else {
            None
        },
        None => None,
    }
}

/// The managed npm root that `path` is a package of.
pub open spec fn npm_root_of(
    fs: Seq<EntryModel>,
    places: PlacesModel,
    path: PathModel,
    scope: ResolveScope,
) -> Option<PathModel> {
    let project = if scope.in_project() {
        manager_root(fs, path, places.cwd, ".pi/npm"@)
    } else {
        None
    };
    let agent = match places.agent {
        Ok(agent) => if scope.in_user() {
            manager_root(fs, path, agent, "npm"@)
        } else {
            None
        },
        Err(_) => None,
    };
    let home = match places.home {
        Some(home) => if scope.in_user() {
            manager_root(fs, path, home, ".pi/agent/npm"@)
        } else {
            None
        },
        None => None,
    };
    if project is Some {
        project
    } else if agent is Some {
        agent
    } else {
        home
    }
}

/// The managed npm root that `path` is a package of.
pub fn npm_install_root_for_path(
    fs: &FsTree,
    places: &Places,
    path: &FsPath,
    scope: ResolveScope,
) -> (r: Option<FsPath>)
    ensures
        paths::opt_path(r) == npm_root_of(fs@, places@, path@, scope),
{
    if scope.in_project() {
        let found = package_manager_root_for_path(fs, path, &places.cwd, ".pi/npm");
        if found.is_some() {
            return found;
        }
    }
    if scope.in_user() {
        match &places.agent {
            Ok(agent) => {
                let found = package_manager_root_for_path(fs, path, agent, "npm");
                if found.is_some() {
                    return found;
                }
            },
            Err(_) => {},
        }
        match &places.home {
            Some(home) => {
                return package_manager_root_for_path(fs, path, home, ".pi/agent/npm");
            },
            None => {},
        }
    }
    None
}

/// The directories that git packages are checked out in.
pub open spec fn git_roots(places: PlacesModel, scope: ResolveScope) -> Seq<PathModel> {
    let project = if scope.in_project() {
        seq![paths::below(places.cwd, ".rpi/git"@), paths::below(places.cwd, ".pi/git"@)]
    } else {
        seq![]
    };
    let agent = match places.agent {
        Ok(agent) => if scope.in_user() {
            seq![paths::below(agent, "git"@)]
        } else {
            seq![]
        },
        Err(_) => seq![],
    };
    let home = match places.home {
        Some(home) => if scope.in_user() {
            seq![paths::below(home, ".pi/agent/git"@)]
        } else {
            seq![]
        },
        None => seq![],
    };
    project + agent + home
}

/// The directories that git packages are checked out in.
pub fn git_store_roots(places: &Places, scope: ResolveScope) -> (out: Vec<FsPath>)
    ensures
        paths::path_views(out@) == git_roots(places@, scope),
{
    let mut out: Vec<FsPath> = Vec::new();
    assert(paths::path_views(out@) =~= seq![]);
    if scope.in_project() {
        paths::push_path(&mut out, places.cwd.below(".rpi/git"));
        paths::push_path(&mut out, places.cwd.below(".pi/git"));
    }
    if scope.in_user() {
        match &places.agent {
            Ok(agent) => {
                paths::push_path(&mut out, agent.below("git"));
            },
            Err(_) => {},
        }
        match &places.home {
            Some(home) => {
                paths::push_path(&mut out, home.below(".pi/agent/git"));
            },
            None => {},
        }
    }
    assert(paths::path_views(out@) =~= git_roots(places@, scope));
    out
}

/// Where a git package lies below the directory for checkouts.
pub open spec fn git_relative(platform: Platform, git: GitModel) -> PathModel {
    paths::below(paths::path_of(platform, git.host), git.path)
}

/// Where a git package lies below the directory for checkouts.
pub fn git_relative_path(system: System, git: &GitSpec) -> (p: FsPath)
    ensures
        p@ == git_relative(system@, git@),
{
    FsPath::parse_on(system, git.host.as_str()).below(git.path.as_str())
}

/// Whether the checkout of `relative` below `root` is a repository of its
/// own, with no link on the way.
pub open spec fn checkout_at(fs: Seq<EntryModel>, root: PathModel, relative: PathModel) -> bool {
    let target = paths::joined_path(root, relative);
    &&& is_canonical(fs, root)
    &&& is_canonical(fs, target)
    &&& paths::relative_to(target, root) matches Some(way) && way.parts.len()
        == relative.parts.len()
    &&& paths::real_dir_at(fs, paths::below(target, ".git"@))
}

/// The checkout of `relative` below the first of `roots`, from the `i`th on,
/// that has it.
pub open spec fn checkout_from(
    fs: Seq<EntryModel>,
    roots: Seq<PathModel>,
    relative: PathModel,
    i: int,
) -> Option<PathModel>
    decreases roots.len() - i,
{
    if i < 0 || i >= roots.len() {
        None
    } else if checkout_at(fs, roots[i], relative) {
        paths::plain_at(fs, paths::joined_path(roots[i], relative))
    } else {
        checkout_from(fs, roots, relative, i + 1)
    }
}

/// The checkout of a git package in the managed stores.
pub open spec fn git_target(
    fs: Seq<EntryModel>,
    places: PlacesModel,
    scope: ResolveScope,
    git: GitModel,
) -> Option<PathModel> {
    checkout_from(fs, git_roots(places, scope), git_relative(places.cwd.platform, git), 0)
}

/// The checkout of a git package in the managed stores. Both the store and
/// the checkout must be directories without a link on the way, so that
/// updating never leaves the store.
pub fn native_git_target_for_spec(
    fs: &FsTree,
    places: &Places,
    scope: ResolveScope,
    git: &GitSpec,
) -> (r: Option<FsPath>)
    ensures
        paths::opt_path(r) == git_target(fs@, places@, scope, git@),
{
    let relative = git_relative_path(places.cwd.system, git);
    let roots = git_store_roots(places, scope);
    let ghost all = paths::path_views(roots@);
    let mut i: usize = 0;
    while i < roots.len()
        invariant
            i <= roots@.len(),
            all == paths::path_views(roots@),
            relative@ == git_relative(places@.cwd.platform, git@),
            all == git_roots(places@, scope),
            checkout_from(fs@, all, relative@, 0) == checkout_from(
                fs@,
                all,
                relative@,
                i as int,
            ),
        decreases roots.len() - i,
    {
        let root = &roots[i];
        assert(all[i as int] == root@);
        let target = root.join(&relative);
        if leads_to_itself(fs, root) && leads_to_itself(fs, &target) {
            match target.strip_prefix(root) {
                Some(way) => {
                    assert(way@.parts.len() == way.parts@.len());
                    assert(relative@.parts.len() == relative.parts@.len());
                    if way.parts.len() == relative.parts.len() && fs.is_real_dir(
                        &target.below(".git"),
                    ) {
                        return fs.resolve(&target);
                    }
                },
                None => {},
            }
        }
        i += 1;
    }
    None
}

/// The first of `roots`, from the `i`th on, that has no link on the way and
/// that `path` lies at least two levels below.
pub open spec fn git_root_from(
    fs: Seq<EntryModel>,
    roots: Seq<PathModel>,
    path: PathModel,
    i: int,
) -> Option<PathModel>
    decreases roots.len() - i,
{
    if i < 0 || i >= roots.len() {
        None
    } else if is_canonical(fs, roots[i]) && (paths::relative_to(path, roots[i]) matches Some(way)
        && way.parts.len() >= 2) {
        paths::plain_at(fs, roots[i])
    } else {
        git_root_from(fs, roots, path, i + 1)
    }
}

/// The directory for checkouts that the repository `path` lies in.
pub open spec fn git_root_of(
    fs: Seq<EntryModel>,
    places: PlacesModel,
    path: PathModel,
    scope: ResolveScope,
) -> Option<PathModel> {
    if !is_canonical(fs, path) || !paths::real_dir_at(fs, paths::below(path, ".git"@)) {
        None
    } else {
        git_root_from(fs, git_roots(places, scope), path, 0)
    }
}

/// The directory for checkouts that the repository `path` lies in.
pub fn native_git_store_root_for_path(
    fs: &FsTree,
    places: &Places,
    path: &FsPath,
    scope: ResolveScope,
) -> (r: Option<FsPath>)
    ensures
        paths::opt_path(r) == git_root_of(fs@, places@, path@, scope),
{
    if !leads_to_itself(fs, path) || !fs.is_real_dir(&path.below(".git")) {
        return None;
    }
    let roots = git_store_roots(places, scope);
    let ghost all = paths::path_views(roots@);
    let mut i: usize = 0;
    while i < roots.len()
        invariant
            i <= roots@.len(),
            all == paths::path_views(roots@),
            git_root_from(fs@, all, path@, 0) == git_root_from(fs@, all, path@, i as int),
            is_canonical(fs@, path@),
            paths::real_dir_at(fs@, paths::below(path@, ".git"@)),
            all == git_roots(places@, scope),
        decreases roots.len() - i,
    {
        let root = &roots[i];
        assert(all[i as int] == root@);
        if leads_to_itself(fs, root) {
            match path.strip_prefix(root) {
                Some(way) => {
                    assert(way@.parts.len() == way.parts@.len());
                    if way.parts.len() >= 2 {
                        return fs.resolve(root);
                    }
                },
                None => {},
            }
        }
        i += 1;
    }
    None
}

/// The stores that hold packages as their direct children.
pub open spec fn package_stores(places: PlacesModel, scope: ResolveScope) -> Seq<PathModel> {
    let agent = match places.agent {
        Ok(agent) => seq![paths::below(agent, "packages"@)],
        Err(_) => seq![],
    };
    let home = match places.home {
        Some(home) => seq![paths::below(home, ".pi/agent/packages"@)],
        None => seq![],
    };
    let project = if scope.in_project() {
        seq![paths::below(places.cwd, ".rpi/packages"@), paths::below(places.cwd, ".pi/packages"@)]
    } else {
        seq![]
    };
    agent + home + project
}

/// The first of `stores`, from the `i`th on, that has no link on the way and
/// is `parent`.
pub open spec fn store_from(
    fs: Seq<EntryModel>,
    stores: Seq<PathModel>,
    parent: PathModel,
    i: int,
) -> Option<PathModel>
    decreases stores.len() - i,
{
    if i < 0 || i >= stores.len() {
        None
    } else if is_canonical(fs, stores[i]) && paths::same_path(parent, stores[i]) {
        Some(stores[i])
    } else {
        store_from(fs, stores, parent, i + 1)
    }
}

/// The package store that the repository `path` is a direct child of.
pub open spec fn direct_store_of(
    fs: Seq<EntryModel>,
    places: PlacesModel,
    path: PathModel,
    scope: ResolveScope,
) -> Option<PathModel> {
    if !is_canonical(fs, path) || !paths::real_dir_at(fs, paths::below(path, ".git"@)) {
        None
    } else {
        match paths::parent_of(path) {
            Some(parent) => store_from(fs, package_stores(places, scope), parent, 0),
            None => None,
        }
    }
}

/// The package store that the repository `path` is a direct child of.
pub fn is_direct_managed_package_root(
    fs: &FsTree,
    places: &Places,
    path: &FsPath,
    scope: ResolveScope,
) -> (r: Option<FsPath>)
    ensures
        paths::opt_path(r) == direct_store_of(fs@, places@, path@, scope),
{
    if !leads_to_itself(fs, path) || !fs.is_real_dir(&path.below(".git")) {
        return None;
    }
    let parent = match path.parent() {
        Some(parent) => parent,
        None => {
            return None;
        },
    };
    let mut stores: Vec<FsPath> = Vec::new();
    assert(paths::path_views(stores@) =~= seq![]);
    match &places.agent {
        Ok(agent) => {
            paths::push_path(&mut stores, agent.below("packages"));
        },
        Err(_) => {},
    }
    match &places.home {
        Some(home) => {
            paths::push_path(&mut stores, home.below(".pi/agent/packages"));
        },
        None => {},
    }
    if scope.in_project() {
        paths::push_path(&mut stores, places.cwd.below(".rpi/packages"));
        paths::push_path(&mut stores, places.cwd.below(".pi/packages"));
    }
    let ghost all = paths::path_views(stores@);
    assert(all =~= package_stores(places@, scope));
    let mut i: usize = 0;
    while i < stores.len()
        invariant
            i <= stores@.len(),
            all == paths::path_views(stores@),
            store_from(fs@, all, parent@, 0) == store_from(fs@, all, parent@, i as int),
            all == package_stores(places@, scope),
            paths::parent_of(path@) == Some(parent@),
            is_canonical(fs@, path@),
            paths::real_dir_at(fs@, paths::below(path@, ".git"@)),
        decreases stores.len() - i,
    {
        assert(all[i as int] == stores@[i as int]@);
        if leads_to_itself(fs, &stores[i]) && parent.same(&stores[i]) {
            return Some(stores[i].copy());
        }
        i += 1;
    }
    None
}

/// Whether `path` leads below the store `base`/`relative`, which has no link
/// on its way from `base`.
pub open spec fn below_store(
    fs: Seq<EntryModel>,
    path: PathModel,
    base: PathModel,
    relative: Seq<char>,
) -> bool {
    match (paths::canonical_at(fs, path), paths::canonical_at(fs, base)) {
        (Some(found), Some(top)) => {
            let store = paths::below(top, relative);
            is_literally_canonical(fs, store) && paths::within(store, top) && (paths::relative_to(
                found,
                store,
            ) matches Some(way) && way.parts.len() > 0)
        },
        _ => false,
    }
}

/// Whether `path` leads below the store `base`/`relative_store`.
pub fn is_package_below_store(fs: &FsTree, path: &FsPath, base: &FsPath, relative_store: &str) -> (r:
    bool)
    ensures
        r == below_store(fs@, path@, base@, relative_store@),
{
    match (fs.canonicalize(path), fs.canonicalize(base)) {
        (Some(found), Some(top)) => {
            let store = top.below(relative_store);
            if !leads_literally_to_itself(fs, &store) || !store.starts_with(&top) {
                return false;
            }
            match found.strip_prefix(&store) {
                Some(way) => {
                    assert(way@.parts.len() == way.parts@.len());
                    way.parts.len() > 0
                },
                None => false,
            }
        },
        _ => false,
    }
}

/// Whether `path` leads to a direct child of the `packages` directory of
/// some project's `.rpi` or `.pi`.
pub open spec fn in_project_store(fs: Seq<EntryModel>, path: PathModel) -> bool {
    match paths::canonical_at(fs, path) {
        None => false,
        Some(found) => match paths::parent_of(found) {
            None => false,
            Some(store) => match paths::parent_of(store) {
                None => false,
                Some(config) => paths::name_of(store) == Some("packages"@) && (paths::name_of(
                    config,
                ) == Some(".rpi"@) || paths::name_of(config) == Some(".pi"@)),
            },
        },
    }
}

/// Whether `path` leads to a direct child of the `packages` directory of
/// some project's `.rpi` or `.pi`.
pub fn is_project_managed_package_path(fs: &FsTree, path: &FsPath) -> (r: bool)
    ensures
        r == in_project_store(fs@, path@),
{
    match fs.canonicalize(path) {
        Some(found) => match found.parent() {
            Some(store) => match store.parent() {
                Some(config) => store.is_named("packages") && (config.is_named(".rpi")
                    || config.is_named(".pi")),
                None => false,
            },
            None => false,
        },
        None => false,
    }
}

/// Whether `path` leads into a package store.
pub open spec fn managed(
    fs: Seq<EntryModel>,
    places: PlacesModel,
    path: PathModel,
    scope: ResolveScope,
) -> bool {
    ||| places.agent matches Ok(agent) && below_store(fs, path, agent, "packages"@)
    ||| places.home matches Some(home) && below_store(fs, path, home, ".pi/agent/packages"@)
    ||| scope == ResolveScope::Any && (below_store(fs, path, places.cwd, ".rpi/packages"@)
        || below_store(fs, path, places.cwd, ".pi/packages"@))
    ||| in_project_store(fs, path)
}

/// Whether `path` leads into a package store.
pub fn is_managed_package_path(
    fs: &FsTree,
    places: &Places,
    path: &FsPath,
    scope: ResolveScope,
) -> (r: bool)
    ensures
        r == managed(fs@, places@, path@, scope),
{
    match &places.agent {
        Ok(agent) => {
            if is_package_below_store(fs, path, agent, "packages") {
                return true;
            }
        },
        Err(_) => {},
    }
    match &places.home {
        Some(home) => {
            if is_package_below_store(fs, path, home, ".pi/agent/packages") {
                return true;
            }
        },
        None => {},
    }
    (scope == ResolveScope::Any && (is_package_below_store(
        fs,
        path,
        &places.cwd,
        ".rpi/packages",
    ) || is_package_below_store(fs, path, &places.cwd, ".pi/packages")))
        || is_project_managed_package_path(fs, path)
}

/// Where a package came from.
pub enum PackageSource {
    Npm {
        name: String,
        spec: String,
        /// Configured version, range, tag, or one-level alias target.
        requested: Option<String>,
        /// Only an exact semantic version is pinned. Ranges and tags update.
        pinned: bool,
    },
    Git,
    Local,
    Unknown,
}

/// The model of `PackageSource`.
pub enum SourceModel {
    Npm { name: Seq<char>, spec: Seq<char>, requested: Option<Seq<char>>, pinned: bool },
    Git,
    Local,
    Unknown,
}

impl View for PackageSource {
    type V = SourceModel;

    open spec fn view(&self) -> SourceModel {
        match self {
            PackageSource::Npm { name, spec, requested, pinned } => SourceModel::Npm {
                name: name@,
                spec: spec@,
                requested: text::opt_text(*requested),
                pinned: *pinned,
            },
            PackageSource::Git => SourceModel::Git,
            PackageSource::Local => SourceModel::Local,
            PackageSource::Unknown => SourceModel::Unknown,
        }
    }
}

/// The view of an optional source.
pub open spec fn opt_source(o: Option<PackageSource>) -> Option<SourceModel> {
    match o {
        Some(s) => Some(s@),
        None => None,
    }
}

fn copy_text(o: &Option<String>) -> (r: Option<String>)
    ensures
        text::opt_text(r) == text::opt_text(*o),
{
    match o {
        Some(s) => Some(s.clone()),
        None => None,
    }
}

fn same_opt_text(a: &Option<String>, b: &Option<String>) -> (r: bool)
    ensures
        r == (text::opt_text(*a) == text::opt_text(*b)),
{
    match (a, b) {
        (Some(x), Some(y)) => text::same(x.as_str(), y.as_str()),
        (None, None) => true,
        _ => false,
    }
}

impl PackageSource {
    /// A copy of the source.
    pub fn copy(&self) -> (r: PackageSource)
        ensures
            r@ == self@,
    {
        match self {
            PackageSource::Npm { name, spec, requested, pinned } => PackageSource::Npm {
                name: name.clone(),
                spec: spec.clone(),
                requested: copy_text(requested),
                pinned: *pinned,
            },
            PackageSource::Git => PackageSource::Git,
            PackageSource::Local => PackageSource::Local,
            PackageSource::Unknown => PackageSource::Unknown,
        }
    }

    /// Whether two sources are the same.
    pub fn same(&self, other: &PackageSource) -> (r: bool)
        ensures
            r == (self@ == other@),
    {
        match (self, other) {
            (
                PackageSource::Npm { name, spec, requested, pinned },
                PackageSource::Npm { name: n, spec: s, requested: q, pinned: p },
            ) => text::same(name.as_str(), n.as_str()) && text::same(spec.as_str(), s.as_str())
                && same_opt_text(requested, q) && *pinned == *p,
            (PackageSource::Git, PackageSource::Git) => true,
            (PackageSource::Local, PackageSource::Local) => true,
            (PackageSource::Unknown, PackageSource::Unknown) => true,
            _ => false,
        }
    }
}

/// The npm source that a specification with `npm:` in front names.
pub open spec fn npm_source_of(spec: Seq<char>) -> Option<SourceModel> {
    match text::after_prefix(spec, "npm:"@) {
        None => None,
        Some(raw) => match npm_spec::npm_spec_of(raw) {
            None => None,
            Some(parsed) => Some(
                SourceModel::Npm {
                    name: parsed.install_name,
                    spec: "npm:"@ + text::trim_of(raw),
                    requested: parsed.requested,
                    pinned: parsed.target_selector matches Some(t) && version::exact_version(t),
                },
            ),
        },
    }
}

/// The npm source that a specification with `npm:` in front names.
pub fn npm_source_from_spec(spec: &str) -> (r: Option<PackageSource>)
    ensures
        opt_source(r) == npm_source_of(spec@),
{
    let raw = match text::strip_prefix(spec, "npm:") {
        Some(raw) => raw,
        None => {
            return None;
        },
    };
    match npm_spec::parse_npm_package_spec(raw) {
        Some(parsed) => {
            let pinned = match &parsed.target_selector {
                Some(t) => version::is_exact_npm_version(t.as_str()),
                None => false,
            };
            Some(
                PackageSource::Npm {
                    name: parsed.install_name,
                    spec: text::cat("npm:", text::trim(raw)),
                    requested: parsed.requested,
                    pinned,
                },
            )
        },
        None => None,
    }
}

/// Whether an npm source is that of the package whose manifest says `name`.
pub open spec fn source_matches(source: SourceModel, name: Seq<char>) -> bool {
    match source {
        SourceModel::Npm { spec, .. } => npm_spec::npm_spec_of(spec) matches Some(parsed)
            && parsed.manifest_name == name,
        _ => false,
    }
}

/// Whether an npm source is that of the package whose manifest says `name`.
pub fn npm_source_matches_manifest(source: &PackageSource, manifest_name: &str) -> (r: bool)
    ensures
        r == source_matches(source@, manifest_name@),
{
    match source {
        PackageSource::Npm { spec, .. } => {
            match npm_spec::parse_npm_package_spec(spec.as_str()) {
                Some(parsed) => text::same(parsed.manifest_name.as_str(), manifest_name),
                None => false,
            }
        },
        _ => false,
    }
}

/// The kind and the specification that a marker records: the members of an
/// object, or the two strings of an array.
pub open spec fn marker_fields(s: Seq<char>) -> Option<(Seq<char>, Seq<char>)> {
    match json::json_read(s) {
        Ok(json::JsonModel::Object(_)) => match (
            json::string_at(s, "kind"@),
            json::string_at(s, "spec"@),
        ) {
            (Some(kind), Some(spec)) => Some((kind, spec)),
            _ => None,
        },
        Ok(json::JsonModel::Array(items)) => if items.len() == 2 {
            match (json::string_in(items[0]), json::string_in(items[1])) {
                (Some(kind), Some(spec)) => Some((kind, spec)),
                _ => None,
            }
        } else {
            None
        },
        _ => None,
    }
}

fn read_marker_fields(s: &str) -> (r: Option<(String, String)>)
    ensures
        (match r {
            Some(p) => Some((p.0@, p.1@)),
            None => None,
        }) == marker_fields(s@),
{
    match json::node_of(s) {
        Ok(json::JsonNode::Object(_)) => {
            match (json::get_string(s, "kind"), json::get_string(s, "spec")) {
                (Some(kind), Some(spec)) => Some((kind, spec)),
                _ => None,
            }
        },
        Ok(json::JsonNode::Array(items)) => {
            assert(text::texts(items@).len() == items@.len());
            if items.len() == 2 {
                assert(text::texts(items@)[0] == items@[0]@ && text::texts(items@)[1]
                    == items@[1]@);
                match (json::as_string(items[0].as_str()), json::as_string(items[1].as_str())) {
                    (Some(kind), Some(spec)) => Some((kind, spec)),
                    _ => None,
                }
            } else {
                None
            }
        },
        _ => None,
    }
}

/// The npm source that a marker's text records for the package `name`.
pub open spec fn marked_source(s: Seq<char>, name: Seq<char>) -> Option<SourceModel> {
    match marker_fields(s) {
        Some((kind, spec)) => if kind == "npm"@ {
            match npm_source_of(spec) {
                Some(source) => if source_matches(source, name) {
                    Some(source)
                } else {
                    None
                },
                None => None,
            }
        } else {
            None
        },
        None => None,
    }
}

/// The npm source that a marker's text records for the package
/// `manifest_name`.
pub fn parse_npm_source_marker(s: &str, manifest_name: &str) -> (r: Option<PackageSource>)
    ensures
        opt_source(r) == marked_source(s@, manifest_name@),
{
    match read_marker_fields(s) {
        Some((kind, spec)) => {
            if !text::same(kind.as_str(), "npm") {
                return None;
            }
            match npm_source_from_spec(spec.as_str()) {
                Some(source) => if npm_source_matches_manifest(&source, manifest_name) {
                    Some(source)
                } else {
                    None
                },
                None => None,
            }
        },
        None => None,
    }
}

/// The npm source that the marker of the package at `root` records.
pub open spec fn marker_at(fs: Seq<EntryModel>, root: PathModel, name: Seq<char>) -> Option<
    SourceModel,
> {
    match paths::text_at(fs, paths::below(root, PACKAGE_SOURCE_MARKER@)) {
        Some(s) => marked_source(s, name),
        None => None,
    }
}

/// The npm source that the marker of the package at `root` records.
pub fn read_npm_source_marker(fs: &FsTree, root: &FsPath, manifest_name: &str) -> (r: Option<
    PackageSource,
>)
    ensures
        opt_source(r) == marker_at(fs@, root@, manifest_name@),
{
    match fs.read_text(&root.below(PACKAGE_SOURCE_MARKER)) {
        Some(s) => parse_npm_source_marker(s.as_str(), manifest_name),
        None => None,
    }
}

/// The text of the marker that records the npm source `spec`.
pub fn npm_source_marker(spec: &str) -> (r: Result<String, String>)
    ensures
        match npm_source_of(spec@) {
            Some(source) => {
                &&& r matches Ok(s) && s@ == json::json_pair(
                    "kind"@,
                    "npm"@,
                    "spec"@,
                    source->spec,
                )
                &&& r matches Ok(s) && marker_fields(s@) == Some(("npm"@, source->spec))
            },
            None => r matches Err(m) && m@ == "invalid npm package source marker spec `"@ + spec@
                + "`"@,
        },
{
    proof {
        reveal_strlit("kind");
        reveal_strlit("spec");
        assert("kind"@[0] != "spec"@[0]);
    }
    match npm_source_from_spec(spec) {
        Some(PackageSource::Npm { spec: source, .. }) => Ok(
            json::write_pair("kind", "npm", "spec", source.as_str()),
        ),
        _ => Err(text::cat3("invalid npm package source marker spec `", spec, "`")),
    }
}

/// The npm source of a package that is in an npm root without a
/// specification of its own.
pub open spec fn plain_npm_source(name: Seq<char>) -> SourceModel {
    SourceModel::Npm { name, spec: "npm:"@ + name, requested: None, pinned: false }
}

/// Where the package at `root`, configured as `spec`, came from. Being in a
/// store is not enough: an `npm:` specification must agree with the manifest
/// and, outside npm roots, with the marker; a git one must have its checkout
/// at `root`.
pub open spec fn classified(
    fs: Seq<EntryModel>,
    places: PlacesModel,
    root: PathModel,
    spec: Seq<char>,
    name: Seq<char>,
    scope: ResolveScope,
) -> SourceModel {
    let in_npm = npm_root_of(fs, places, root, scope) is Some;
    let in_store = managed(fs, places, root, scope);
    if text::begins(spec, "npm:"@) {
        match npm_source_of(spec) {
            None => SourceModel::Unknown,
            Some(source) => if !source_matches(source, name) {
                SourceModel::Unknown
            } else if in_npm {
                source
            } else if in_store && marker_at(fs, root, name) == Some(source) {
                source
            } else {
                SourceModel::Unknown
            },
        }
    } else {
        match git_source::git_source_of(spec) {
            Some(git) => if git_target(fs, places, scope, git) matches Some(target)
                && paths::same_path(target, root) {
                SourceModel::Git
            } else {
                SourceModel::Unknown
            },
            None => if text::begins(spec, "file:"@) || paths::path_of(
                places.cwd.platform,
                spec,
            ).absolute() || text::first_is(spec, '.') {
                if git_root_of(fs, places, root, scope) is Some || direct_store_of(
                    fs,
                    places,
                    root,
                    scope,
                ) is Some {
                    SourceModel::Git
                } else if (in_store || in_npm) && marker_at(fs, root, name) is Some {
                    marker_at(fs, root, name)->0
                } else if in_npm && npm_spec::npm_name(name) {
                    plain_npm_source(name)
                } else {
                    SourceModel::Local
                }
            } else if in_npm && npm_spec::npm_name(name) {
                plain_npm_source(name)
            } else {
                SourceModel::Unknown
            },
        }
    }
}

fn plain_source(name: &str) -> (r: PackageSource)
    ensures
        r@ == plain_npm_source(name@),
{
    PackageSource::Npm {
        name: name.to_owned(),
        spec: text::cat("npm:", name),
        requested: None,
        pinned: false,
    }
}

/// Where the package at `root`, configured as `spec`, came from.
pub fn classify_package_source(
    fs: &FsTree,
    places: &Places,
    root: &FsPath,
    spec: &str,
    manifest_name: &str,
    scope: ResolveScope,
) -> (r: PackageSource)
    ensures
        r@ == classified(fs@, places@, root@, spec@, manifest_name@, scope),
{
    let in_npm = npm_install_root_for_path(fs, places, root, scope).is_some();
    if text::starts_with(spec, "npm:") {
        let source = match npm_source_from_spec(spec) {
            Some(source) => source,
            None => {
                return PackageSource::Unknown;
            },
        };
        if !npm_source_matches_manifest(&source, manifest_name) {
            return PackageSource::Unknown;
        }
        if in_npm {
            return source;
        }
        if is_managed_package_path(fs, places, root, scope) {
            match read_npm_source_marker(fs, root, manifest_name) {
                Some(marked) => {
                    if marked.same(&source) {
                        return source;
                    }
                },
                None => {},
            }
        }
        return PackageSource::Unknown;
    }
    match git_source::parse_git_source(spec) {
        Some(git) => {
            return match native_git_target_for_spec(fs, places, scope, &git) {
                Some(target) => if target.same(root) {
                    PackageSource::Git
                } else {
                    PackageSource::Unknown
                },
                None => PackageSource::Unknown,
            };
        },
        None => {},
    }
    let direct = FsPath::parse_on(places.cwd.system, spec);
    if text::starts_with(spec, "file:") || direct.is_absolute()
        || text::starts_with_char(spec, '.') {
        if native_git_store_root_for_path(fs, places, root, scope).is_some()
            || is_direct_managed_package_root(fs, places, root, scope).is_some() {
            return PackageSource::Git;
        }
        if in_npm || is_managed_package_path(fs, places, root, scope) {
            match read_npm_source_marker(fs, root, manifest_name) {
                Some(source) => {
                    return source;
                },
                None => {},
            }
        }
        if in_npm && npm_spec::valid_npm_name(manifest_name) {
            return plain_source(manifest_name);
        }
        return PackageSource::Local;
    }
    if in_npm && npm_spec::valid_npm_name(manifest_name) {
        return plain_source(manifest_name);
    }
    PackageSource::Unknown
}

/// A marker that was written for a source is read back as that source, for
/// the package that the source names.
pub proof fn lemma_marker_reads_back(spec: Seq<char>, written: Seq<char>, name: Seq<char>)
    requires
        npm_source_of(spec) matches Some(source) && source_matches(source, name)
            && marker_fields(written) == Some(("npm"@, source->spec)),
    ensures
        marked_source(written, name) == npm_source_of(spec),
{
    let raw = text::after_prefix(spec, "npm:"@)->0;
    let trimmed = text::trim_of(raw);
    npm_spec::lemma_space_says_nothing(raw);
    text::lemma_trim_twice(raw);
    let again = "npm:"@ + trimmed;
    assert(again.take("npm:"@.len() as int) =~= "npm:"@);
    assert(again.skip("npm:"@.len() as int) =~= trimmed);
    assert(text::after_prefix(again, "npm:"@) == Some(trimmed));
    assert(npm_source_of(again) == npm_source_of(spec));
}

/// A package that is configured as an npm source is taken for one only where
/// its manifest has the name that the source says.
pub proof fn lemma_npm_provenance(
    fs: Seq<EntryModel>,
    places: PlacesModel,
    root: PathModel,
    spec: Seq<char>,
    name: Seq<char>,
    scope: ResolveScope,
)
    requires
        text::begins(spec, "npm:"@),
        classified(fs, places, root, spec, name, scope) != SourceModel::Unknown,
    ensures
        npm_source_of(spec) == Some(classified(fs, places, root, spec, name, scope)),
        source_matches(npm_source_of(spec)->0, name),
        npm_root_of(fs, places, root, scope) is Some || (managed(fs, places, root, scope)
            && marker_at(fs, root, name) == npm_source_of(spec)),
{
}

/// A git package is updated only in a checkout of its own: where a git
/// specification is accepted, the package lies at its place below one of the
/// directories for checkouts, and no link is on the way.
pub proof fn lemma_git_provenance(
    fs: Seq<EntryModel>,
    roots: Seq<PathModel>,
    relative: PathModel,
    i: int,
)
    requires
        0 <= i,
        checkout_from(fs, roots, relative, i) is Some,
    ensures
        exists|k: int|
            i <= k < roots.len() && checkout_at(fs, #[trigger] roots[k], relative)
                && paths::same_path(
                checkout_from(fs, roots, relative, i)->0,
                paths::joined_path(roots[k], relative),
            ),
    decreases roots.len() - i,
{
    if i < roots.len() {
        if checkout_at(fs, roots[i], relative) {
            assert(paths::same_path(
                checkout_from(fs, roots, relative, i)->0,
                paths::joined_path(roots[i], relative),
            ));
        } else {
            lemma_git_provenance(fs, roots, relative, i + 1);
        }
    }
}

} // verus!
