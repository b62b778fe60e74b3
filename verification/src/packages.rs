//! Configured packages: how a setting leads to a package, and what of it is
//! loaded.

use vstd::prelude::*;

use crate::git_source;
use crate::json;
use crate::npm_command;
use crate::npm_command::NpmCommand;
use crate::npm_spec;
use crate::paths;
use crate::paths::{EntryModel, FsPath, FsTree, PathModel};
use crate::resources;
use crate::resources::{FilterModel, FilterResourceKind, PackageFilter};
use crate::stores;
use crate::stores::{PackageSource, Places, PlacesModel, ResolveScope, SourceModel};
use crate::text;

verus! {

/// A package that was found.
pub struct PackageRoot {
    pub root: FsPath,
    pub name: String,
    pub version: Option<String>,
    pub manifest: Option<FsPath>,
    /// The settings entry that led to the package.
    pub spec: String,
    /// Where the package came from. That it lies in a managed directory does
    /// not prove that it came from the registry.
    pub source: PackageSource,
    /// The npm root that the package is installed under, where it is. Such a
    /// package is updated by the package manager at that root.
    pub npm_install_root: Option<FsPath>,
    /// The global `node_modules` that the package was found in. Nothing is
    /// ever written there.
    pub legacy_npm_root: Option<FsPath>,
    /// Whether the entry changes the user's entry for the same package.
    pub autoload_delta: bool,
    pub scope: ResolveScope,
    pub git_store_root: Option<FsPath>,
    pub git_revision: Option<String>,
    /// Whether the package is configured but not installed.
    pub missing_install: bool,
    pub filter: Option<PackageFilter>,
    pub skills: Vec<FsPath>,
    pub prompts: Vec<FsPath>,
    pub themes: Vec<FsPath>,
    pub system_prompts: Vec<FsPath>,
    pub append_system_prompts: Vec<FsPath>,
    pub extensions: Vec<FsPath>,
}

/// The model of `PackageRoot`.
#[verifier::ext_equal]
pub struct PackageModel {
    pub root: PathModel,
    pub name: Seq<char>,
    pub version: Option<Seq<char>>,
    pub manifest: Option<PathModel>,
    pub spec: Seq<char>,
    pub source: SourceModel,
    pub npm_install_root: Option<PathModel>,
    pub legacy_npm_root: Option<PathModel>,
    pub autoload_delta: bool,
    pub scope: ResolveScope,
    pub git_store_root: Option<PathModel>,
    pub git_revision: Option<Seq<char>>,
    pub missing_install: bool,
    pub filter: Option<FilterModel>,
    pub skills: Seq<PathModel>,
    pub prompts: Seq<PathModel>,
    pub themes: Seq<PathModel>,
    pub system_prompts: Seq<PathModel>,
    pub append_system_prompts: Seq<PathModel>,
    pub extensions: Seq<PathModel>,
}

/// The view of an optional filter.
pub open spec fn opt_filter(o: Option<PackageFilter>) -> Option<FilterModel> {
    match o {
        Some(f) => Some(f@),
        None => None,
    }
}

/// The view of an optional reference to a filter.
pub open spec fn filter_ref(o: Option<&PackageFilter>) -> Option<FilterModel> {
    match o {
        Some(f) => Some(f@),
        None => None,
    }
}

impl View for PackageRoot {
    type V = PackageModel;

    open spec fn view(&self) -> PackageModel {
        PackageModel {
            root: self.root@,
            name: self.name@,
            version: text::opt_text(self.version),
            manifest: paths::opt_path(self.manifest),
            spec: self.spec@,
            source: self.source@,
            npm_install_root: paths::opt_path(self.npm_install_root),
            legacy_npm_root: paths::opt_path(self.legacy_npm_root),
            autoload_delta: self.autoload_delta,
            scope: self.scope,
            git_store_root: paths::opt_path(self.git_store_root),
            git_revision: text::opt_text(self.git_revision),
            missing_install: self.missing_install,
            filter: opt_filter(self.filter),
            skills: paths::path_views(self.skills@),
            prompts: paths::path_views(self.prompts@),
            themes: paths::path_views(self.themes@),
            system_prompts: paths::path_views(self.system_prompts@),
            append_system_prompts: paths::path_views(self.append_system_prompts@),
            extensions: paths::path_views(self.extensions@),
        }
    }
}

/// Why a configured package was not loaded.
pub struct PackageDiagnostic {
    pub spec: String,
    pub message: String,
    pub blocks_update: bool,
}

/// The model of `PackageDiagnostic`.
#[verifier::ext_equal]
pub struct DiagnosticModel {
    pub spec: Seq<char>,
    pub message: Seq<char>,
    pub blocks_update: bool,
}

impl View for PackageDiagnostic {
    type V = DiagnosticModel;

    open spec fn view(&self) -> DiagnosticModel {
        DiagnosticModel {
            spec: self.spec@,
            message: self.message@,
            blocks_update: self.blocks_update,
        }
    }
}

/// The packages that were found, in the order of the settings, and what was
/// wrong with the others.
pub struct PackageResources {
    pub packages: Vec<PackageRoot>,
    pub diagnostics: Vec<PackageDiagnostic>,
}

/// The model of `PackageResources`.
#[verifier::ext_equal]
pub struct ResourcesModel {
    pub packages: Seq<PackageModel>,
    pub diagnostics: Seq<DiagnosticModel>,
}

/// The views of a list of packages.
pub open spec fn package_views(v: Seq<PackageRoot>) -> Seq<PackageModel> {
    Seq::new(v.len(), |i: int| v[i]@)
}

/// The views of a list of diagnostics.
pub open spec fn diagnostic_views(v: Seq<PackageDiagnostic>) -> Seq<DiagnosticModel> {
    Seq::new(v.len(), |i: int| v[i]@)
}

impl View for PackageResources {
    type V = ResourcesModel;

    open spec fn view(&self) -> ResourcesModel {
        ResourcesModel {
            packages: package_views(self.packages@),
            diagnostics: diagnostic_views(self.diagnostics@),
        }
    }
}

/// A list of a package's resources.
#[derive(Debug, Clone, Copy, PartialEq, Eq, Structural)]
pub enum ResourceList {
    Extensions,
    Skills,
    Prompts,
    SystemPrompts,
    AppendSystemPrompts,
}

/// One list of a package's resources.
pub open spec fn list_in(p: PackageModel, list: ResourceList) -> Seq<PathModel> {
    match list {
        ResourceList::Extensions => p.extensions,
        ResourceList::Skills => p.skills,
        ResourceList::Prompts => p.prompts,
        ResourceList::SystemPrompts => p.system_prompts,
        ResourceList::AppendSystemPrompts => p.append_system_prompts,
    }
}

/// The resources of the first `n` packages, one package after another.
pub open spec fn gathered(packages: Seq<PackageModel>, list: ResourceList, n: int) -> Seq<PathModel>
    decreases n,
{
    if n <= 0 {
        seq![]
    } else {
        gathered(packages, list, n - 1) + list_in(packages[n - 1], list)
    }
}

/// The theme files of the first `n` packages, one package after another.
pub open spec fn themes_among(fs: Seq<EntryModel>, packages: Seq<PackageModel>, n: int) -> Seq<
    PathModel,
>
    decreases n,
{
    if n <= 0 {
        seq![]
    } else {
        themes_among(fs, packages, n - 1) + resources::inventory(
            fs,
            packages[n - 1].root,
            packages[n - 1].themes,
            FilterResourceKind::Themes,
        )
    }
}

/// Whether a theme file goes by `name`: its path, its name or its stem.
pub open spec fn theme_named(p: PathModel, name: Seq<char>) -> bool {
    paths::same_path(p, paths::path_of(p.platform, name)) || (paths::name_of(p) matches Some(n) && (n == name
        || resources::stem_of(n) == name))
}

/// The first of `files`, from the `i`th on, that goes by `name`.
pub open spec fn theme_from(files: Seq<PathModel>, name: Seq<char>, i: int) -> Option<PathModel>
    decreases files.len() - i,
{
    if i < 0 || i >= files.len() {
        None
    } else if theme_named(files[i], name) {
        Some(files[i])
    } else {
        theme_from(files, name, i + 1)
    }
}

impl PackageResources {
    fn gather(&self, list: ResourceList) -> (out: Vec<FsPath>)
        ensures
            paths::path_views(out@) == gathered(
                self@.packages,
                list,
                self@.packages.len() as int,
            ),
    {
        let mut out: Vec<FsPath> = Vec::new();
        assert(paths::path_views(out@) =~= seq![]);
        let mut i: usize = 0;
        while i < self.packages.len()
            invariant
                i <= self.packages@.len(),
                paths::path_views(out@) == gathered(self@.packages, list, i as int),
            decreases self.packages.len() - i,
        {
            let p = &self.packages[i];
            assert(self@.packages[i as int] == p@);
            match list {
                ResourceList::Extensions => {
                    paths::push_paths(&mut out, p.extensions.as_slice());
                },
                ResourceList::Skills => {
                    paths::push_paths(&mut out, p.skills.as_slice());
                },
                ResourceList::Prompts => {
                    paths::push_paths(&mut out, p.prompts.as_slice());
                },
                ResourceList::SystemPrompts => {
                    paths::push_paths(&mut out, p.system_prompts.as_slice());
                },
                ResourceList::AppendSystemPrompts => {
                    paths::push_paths(&mut out, p.append_system_prompts.as_slice());
                },
            }
            i += 1;
        }
        out
    }

    /// The extension entry files of all packages.
    pub fn extension_paths(&self) -> (out: Vec<FsPath>)
        ensures
            paths::path_views(out@) == gathered(
                self@.packages,
                ResourceList::Extensions,
                self@.packages.len() as int,
            ),
    {
        self.gather(ResourceList::Extensions)
    }

    /// The skills of all packages.
    pub fn skill_dirs(&self) -> (out: Vec<FsPath>)
        ensures
            paths::path_views(out@) == gathered(
                self@.packages,
                ResourceList::Skills,
                self@.packages.len() as int,
            ),
    {
        self.gather(ResourceList::Skills)
    }

    /// The prompts of all packages.
    pub fn prompt_dirs(&self) -> (out: Vec<FsPath>)
        ensures
            paths::path_views(out@) == gathered(
                self@.packages,
                ResourceList::Prompts,
                self@.packages.len() as int,
            ),
    {
        self.gather(ResourceList::Prompts)
    }

    /// The system prompts of all packages.
    pub fn system_prompt_files(&self) -> (out: Vec<FsPath>)
        ensures
            paths::path_views(out@) == gathered(
                self@.packages,
                ResourceList::SystemPrompts,
                self@.packages.len() as int,
            ),
    {
        self.gather(ResourceList::SystemPrompts)
    }

    /// The additions to the system prompt of all packages.
    pub fn append_system_prompt_files(&self) -> (out: Vec<FsPath>)
        ensures
            paths::path_views(out@) == gathered(
                self@.packages,
                ResourceList::AppendSystemPrompts,
                self@.packages.len() as int,
            ),
    {
        self.gather(ResourceList::AppendSystemPrompts)
    }

    /// The theme files of all packages.
    pub fn theme_files(&self, fs: &FsTree) -> (out: Vec<FsPath>)
        ensures
            paths::path_views(out@) == themes_among(
                fs@,
                self@.packages,
                self@.packages.len() as int,
            ),
    {
        let mut out: Vec<FsPath> = Vec::new();
        assert(paths::path_views(out@) =~= seq![]);
        let mut i: usize = 0;
        while i < self.packages.len()
            invariant
                i <= self.packages@.len(),
                paths::path_views(out@) == themes_among(fs@, self@.packages, i as int),
            decreases self.packages.len() - i,
        {
            let p = &self.packages[i];
            assert(self@.packages[i as int] == p@);
            let files = resources::resource_inventory(
                fs,
                &p.root,
                &p.themes,
                FilterResourceKind::Themes,
            );
            paths::push_paths(&mut out, files.as_slice());
            i += 1;
        }
        out
    }

    /// The first theme file that goes by `name`.
    pub fn find_theme(&self, fs: &FsTree, name: &str) -> (r: Option<FsPath>)
        ensures
            paths::opt_path(r) == theme_from(
                themes_among(fs@, self@.packages, self@.packages.len() as int),
                name@,
                0,
            ),
    {
        let files = self.theme_files(fs);
        let ghost all = paths::path_views(files@);
        let mut i: usize = 0;
        while i < files.len()
            invariant
                i <= files@.len(),
                all == paths::path_views(files@),
                all == themes_among(fs@, self@.packages, self@.packages.len() as int),
                theme_from(all, name@, 0) == theme_from(all, name@, i as int),
            decreases files.len() - i,
        {
            let p = &files[i];
            assert(all[i as int] == p@);
            if p.same(&FsPath::parse_on(p.system, name)) {
                return Some(p.copy());
            }
            match p.file_name() {
                Some(n) => {
                    let (stem, _) = resources::split_extension(n.as_str());
                    if text::same(n.as_str(), name) || text::same(stem.as_str(), name) {
                        return Some(p.copy());
                    }
                },
                None => {},
            }
            i += 1;
        }
        None
    }
}

/// A path as a key: with its links followed, and in small letters.
pub open spec fn path_key(fs: Seq<EntryModel>, p: PathModel) -> Seq<char> {
    text::lower_of(
        paths::path_text(
            match paths::canonical_at(fs, p) {
                Some(c) => c,
                None => p,
            },
        ),
    )
}

/// A path as a key: with its links followed, and in small letters.
pub fn normalize_key(fs: &FsTree, p: &FsPath) -> (out: String)
    ensures
        out@ == path_key(fs@, p@),
{
    let shown = match fs.canonicalize(p) {
        Some(c) => c.to_text(),
        None => p.to_text(),
    };
    text::lower(shown.as_str())
}

/// What makes two entries the same package: the name of an npm package
/// without its version, the repository of a git package, the place of any
/// other.
pub open spec fn identity_of(fs: Seq<EntryModel>, p: PackageModel) -> Seq<char> {
    match p.source {
        SourceModel::Npm { name, .. } => "npm:"@ + text::lower_of(name),
        SourceModel::Git => match git_source::git_source_of(p.spec) {
            Some(git) => "git:"@ + git.host + "/"@ + git.path,
            None => "git:path:"@ + path_key(fs, p.root),
        },
        SourceModel::Local => "local:"@ + path_key(fs, p.root),
        SourceModel::Unknown => "unknown:"@ + path_key(fs, p.root),
    }
}

/// What makes two entries the same package.
pub fn package_identity(fs: &FsTree, package: &PackageRoot) -> (out: String)
    ensures
        out@ == identity_of(fs@, package@),
{
    match &package.source {
        PackageSource::Npm { name, .. } => {
            let lowered = text::lower(name.as_str());
            text::cat("npm:", lowered.as_str())
        },
        PackageSource::Git => match git_source::parse_git_source(package.spec.as_str()) {
            Some(git) => text::cat4("git:", git.host.as_str(), "/", git.path.as_str()),
            None => text::cat("git:path:", normalize_key(fs, &package.root).as_str()),
        },
        PackageSource::Local => text::cat("local:", normalize_key(fs, &package.root).as_str()),
        PackageSource::Unknown => text::cat("unknown:", normalize_key(fs, &package.root).as_str()),
    }
}

/// The name of a package in a flat store: without its `@`, and with `__` for
/// `/`.
pub open spec fn flat_name(name: Seq<char>) -> Seq<char> {
    let bare = if text::first_is(name, '@') {
        name.skip(1)
    } else {
        name
    };
    text::replaced(bare, "/"@, "__"@)
}

/// The name of a package in a flat store.
pub fn package_store_key(name: &str) -> (out: String)
    ensures
        out@ == flat_name(name@),
{
    proof {
        reveal_strlit("/");
    }
    let bare = if text::starts_with_char(name, '@') {
        text::skip(name, 1)
    } else {
        name
    };
    text::replace(bare, "/", "__")
}

/// The places of a package below the store `base`/`dir`: under its name and,
/// where that differs, under its flat name.
pub open spec fn named_places(base: PathModel, dir: Seq<char>, name: Seq<char>) -> Seq<PathModel> {
    let store = paths::below(base, dir);
    if flat_name(name) == name {
        seq![paths::below(store, name)]
    } else {
        seq![paths::below(store, name), paths::below(store, flat_name(name))]
    }
}

pub(crate) fn push_named_places(out: &mut Vec<FsPath>, base: &FsPath, dir: &str, name: &str)
    ensures
        paths::path_views(final(out)@) == paths::path_views(old(out)@) + named_places(
            base@,
            dir@,
            name@,
        ),
{
    let store = base.below(dir);
    let flat = package_store_key(name);
    paths::push_path(out, store.below(name));
    if !text::same(flat.as_str(), name) {
        paths::push_path(out, store.below(flat.as_str()));
    }
    assert(paths::path_views(out@) =~= paths::path_views(old(out)@) + named_places(
        base@,
        dir@,
        name@,
    ));
}

/// `p` and the directories above it, from the nearest up.
pub open spec fn ancestors(p: PathModel) -> Seq<PathModel>
    decreases p.parts.len(),
{
    match paths::parent_of(p) {
        Some(parent) => if parent.parts.len() < p.parts.len() {
            seq![p] + ancestors(parent)
        } else {
            seq![p]
        },
        None => seq![p],
    }
}

/// The `node_modules` of `p` and of the directories above it, each with
/// `name` below.
pub open spec fn module_places(p: PathModel, name: Seq<char>) -> Seq<PathModel> {
    Seq::new(
        ancestors(p).len(),
        |i: int| paths::below(paths::below(ancestors(p)[i], "node_modules"@), name),
    )
}

fn push_module_places(out: &mut Vec<FsPath>, p: &FsPath, name: &str)
    ensures
        paths::path_views(final(out)@) == paths::path_views(old(out)@) + module_places(p@, name@),
    decreases p.parts.len(),
{
    paths::push_path(out, p.below("node_modules").below(name));
    match p.parent() {
        Some(parent) => {
            let ghost before = paths::path_views(out@);
            assert(parent@.parts.len() == p@.parts.len() - 1);
            assert(parent@.parts.len() == parent.parts@.len() && p@.parts.len() == p.parts@.len());
            push_module_places(out, &parent, name);
            assert(paths::path_views(out@) =~= paths::path_views(old(out)@) + module_places(
                p@,
                name@,
            )) by {
                assert(ancestors(p@) =~= seq![p@] + ancestors(parent@));
                assert(module_places(p@, name@) =~= seq![
                    paths::below(paths::below(p@, "node_modules"@), name@),
                ] + module_places(parent@, name@));
            }
        },
        None => {
            assert(ancestors(p@) =~= seq![p@]);
            assert(paths::path_views(out@) =~= paths::path_views(old(out)@) + module_places(
                p@,
                name@,
            ));
        },
    }
}

/// A settings entry, read as the places that it may mean.
#[verifier::ext_equal]
pub struct SpecModel {
    /// Whether the entry starts with `file:`.
    pub is_file: bool,
    /// Whether the entry names an npm source.
    pub is_npm: bool,
    /// The entry without its prefixes.
    pub body: Seq<char>,
    /// The name of the package.
    pub name: Seq<char>,
}

/// A settings entry without its prefixes; `None` where it is no valid npm
/// specification though it says so.
pub open spec fn read_spec(spec: Seq<char>) -> Option<SpecModel> {
    let is_file = text::begins(spec, "file:"@);
    let raw = match text::after_prefix(spec, "file:"@) {
        Some(rest) => rest,
        None => spec,
    };
    match text::after_prefix(raw, "npm:"@) {
        Some(body) => match npm_spec::npm_spec_of(body) {
            Some(parsed) => Some(
                SpecModel { is_file, is_npm: true, body, name: parsed.install_name },
            ),
            None => None,
        },
        None => Some(
            SpecModel { is_file, is_npm: false, body: raw, name: npm_spec::bare_name(raw) },
        ),
    }
}

/// The places of an entry that is a relative path.
pub open spec fn relative_places(
    places: PlacesModel,
    scope: ResolveScope,
    body: Seq<char>,
) -> Seq<PathModel> {
    if scope.in_project() {
        seq![
            paths::below(paths::below(places.cwd, ".rpi"@), body),
            paths::below(paths::below(places.cwd, ".pi"@), body),
            paths::below(places.cwd, body),
        ]
    } else {
        let agent = match places.agent {
            Ok(agent) => seq![paths::below(agent, body)],
            Err(_) => seq![],
        };
        let home = match places.home {
            Some(home) => seq![paths::below(paths::below(home, ".pi/agent"@), body)],
            None => seq![],
        };
        agent + home
    }
}

/// The places of a git package: its checkout below each of `roots`.
pub open spec fn git_places(roots: Seq<PathModel>, host: Seq<char>, path: Seq<char>) -> Seq<
    PathModel,
> {
    Seq::new(roots.len(), |i: int| paths::below(paths::below(roots[i], host), path))
}

/// The places of a package in the project's stores.
pub open spec fn project_places(
    places: PlacesModel,
    scope: ResolveScope,
    spec: SpecModel,
) -> Seq<PathModel> {
    let stores = named_places(places.cwd, ".rpi/packages"@, spec.name) + named_places(
        places.cwd,
        ".pi/packages"@,
        spec.name,
    );
    if !scope.in_project() {
        seq![]
    } else if spec.is_npm {
        stores + seq![paths::below(paths::below(places.cwd, ".pi/npm/node_modules"@), spec.name)]
    } else if scope == ResolveScope::Any {
        stores + module_places(places.cwd, spec.name)
    } else {
        stores
    }
}

/// The places of a package in the user's stores.
pub open spec fn user_places(places: PlacesModel, scope: ResolveScope, name: Seq<char>) -> Seq<
    PathModel,
> {
    let agent = match places.agent {
        Ok(agent) => named_places(agent, "packages"@, name) + named_places(
            agent,
            "npm/node_modules"@,
            name,
        ),
        Err(_) => seq![],
    };
    let home = match places.home {
        Some(home) => named_places(home, ".pi/agent/packages"@, name) + named_places(
            home,
            ".pi/agent/npm/node_modules"@,
            name,
        ),
        None => seq![],
    };
    if scope.in_user() {
        agent + home
    } else {
        seq![]
    }
}

/// Whether an entry is a relative path rather than a name.
pub open spec fn explicit_relative(spec: SpecModel) -> bool {
    spec.is_file || text::first_is(spec.body, '.')
}

/// The places where the package of a settings entry may be, the preferred
/// ones first: the agent's own stores, then those of others, then plain
/// `node_modules`.
pub open spec fn places_of(
    places: PlacesModel,
    text_of_spec: Seq<char>,
    spec: SpecModel,
    scope: ResolveScope,
) -> Seq<PathModel> {
    if paths::path_of(places.cwd.platform, spec.body).absolute() {
        seq![paths::path_of(places.cwd.platform, spec.body)]
    } else {
        let relative = if explicit_relative(spec) {
            relative_places(places, scope, spec.body)
        } else {
            seq![]
        };
        let git = match git_source::git_source_of(text_of_spec) {
            Some(git) => git_places(stores::git_roots(places, scope), git.host, git.path),
            None => seq![],
        };
        let plain = if scope == ResolveScope::Any && !spec.is_npm && !explicit_relative(spec) {
            seq![paths::below(places.cwd, spec.name)]
        } else {
            seq![]
        };
        relative + git + project_places(places, scope, spec) + user_places(
            places,
            scope,
            spec.name,
        ) + plain
    }
}

fn push_relative_places(
    out: &mut Vec<FsPath>,
    places: &Places,
    scope: ResolveScope,
    body: &str,
)
    ensures
        paths::path_views(final(out)@) == paths::path_views(old(out)@) + relative_places(
            places@,
            scope,
            body@,
        ),
{
    if scope.in_project() {
        paths::push_path(out, places.cwd.below(".rpi").below(body));
        paths::push_path(out, places.cwd.below(".pi").below(body));
        paths::push_path(out, places.cwd.below(body));
    } else {
        match &places.agent {
            Ok(agent) => {
                paths::push_path(out, agent.below(body));
            },
            Err(_) => {},
        }
        match &places.home {
            Some(home) => {
                paths::push_path(out, home.below(".pi/agent").below(body));
            },
            None => {},
        }
    }
    assert(paths::path_views(out@) =~= paths::path_views(old(out)@) + relative_places(
        places@,
        scope,
        body@,
    ));
}

fn push_git_places(
    out: &mut Vec<FsPath>,
    places: &Places,
    scope: ResolveScope,
    host: &str,
    path: &str,
)
    ensures
        paths::path_views(final(out)@) == paths::path_views(old(out)@) + git_places(
            stores::git_roots(places@, scope),
            host@,
            path@,
        ),
{
    let roots = stores::git_store_roots(places, scope);
    let ghost all = paths::path_views(roots@);
    let mut i: usize = 0;
    while i < roots.len()
        invariant
            i <= roots@.len(),
            all == paths::path_views(roots@),
            all == stores::git_roots(places@, scope),
            paths::path_views(out@) =~= paths::path_views(old(out)@) + git_places(
                all,
                host@,
                path@,
            ).take(i as int),
        decreases roots.len() - i,
    {
        assert(all[i as int] == roots@[i as int]@);
        paths::push_path(out, roots[i].below(host).below(path));
        i += 1;
    }
    assert(git_places(all, host@, path@).take(i as int) =~= git_places(all, host@, path@));
}

fn push_project_places(
    out: &mut Vec<FsPath>,
    places: &Places,
    scope: ResolveScope,
    name: &str,
    is_npm: bool,
    Ghost(spec): Ghost<SpecModel>,
)
    requires
        spec.name == name@,
        spec.is_npm == is_npm,
    ensures
        paths::path_views(final(out)@) == paths::path_views(old(out)@) + project_places(
            places@,
            scope,
            spec,
        ),
{
    let ghost before = paths::path_views(out@);
    if scope.in_project() {
        push_named_places(out, &places.cwd, ".rpi/packages", name);
        push_named_places(out, &places.cwd, ".pi/packages", name);
        if is_npm {
            paths::push_path(out, places.cwd.below(".pi/npm/node_modules").below(name));
        } else if scope == ResolveScope::Any {
            push_module_places(out, &places.cwd, name);
        }
    }
    assert(paths::path_views(out@) =~= before + project_places(places@, scope, spec));
}

fn push_user_places(out: &mut Vec<FsPath>, places: &Places, scope: ResolveScope, name: &str)
    ensures
        paths::path_views(final(out)@) == paths::path_views(old(out)@) + user_places(
            places@,
            scope,
            name@,
        ),
{
    let ghost before = paths::path_views(out@);
    if scope.in_user() {
        match &places.agent {
            Ok(agent) => {
                push_named_places(out, agent, "packages", name);
                push_named_places(out, agent, "npm/node_modules", name);
            },
            Err(_) => {},
        }
        match &places.home {
            Some(home) => {
                push_named_places(out, home, ".pi/agent/packages", name);
                push_named_places(out, home, ".pi/agent/npm/node_modules", name);
            },
            None => {},
        }
    }
    assert(paths::path_views(out@) =~= before + user_places(places@, scope, name@));
}

/// The places where the package of a settings entry may be, the preferred
/// ones first, with the package's name and whether the entry is an npm
/// source; `None` where it says so and is none.
pub fn spec_candidates(places: &Places, spec: &str, scope: ResolveScope) -> (r: Option<
    (Vec<FsPath>, String, bool),
>)
    ensures
        match read_spec(spec@) {
            Some(read) => r matches Some(c) && paths::path_views(c.0@) == places_of(
                places@,
                spec@,
                read,
                scope,
            ) && c.1@ == read.name && c.2 == read.is_npm,
            None => r is None,
        },
{
    let is_file = text::starts_with(spec, "file:");
    let raw = match text::strip_prefix(spec, "file:") {
        Some(rest) => rest,
        None => spec,
    };
    let mut is_npm = false;
    let mut body = raw;
    let name: String;
    match text::strip_prefix(raw, "npm:") {
        Some(rest) => {
            is_npm = true;
            body = rest;
            match npm_spec::parse_npm_package_spec(rest) {
                Some(parsed) => {
                    name = parsed.install_name;
                },
                None => {
                    return None;
                },
            }
        },
        None => {
            name = npm_spec::package_name_without_version(raw).to_owned();
        },
    }
    let ghost read = SpecModel { is_file, is_npm, body: body@, name: name@ };
    assert(read_spec(spec@) == Some(read));
    let direct = FsPath::parse_on(places.cwd.system, body);
    let mut out: Vec<FsPath> = Vec::new();
    assert(paths::path_views(out@) =~= seq![]);
    if direct.is_absolute() {
        paths::push_path(&mut out, direct);
        assert(paths::path_views(out@) =~= places_of(places@, spec@, read, scope));
        return Some((out, name, is_npm));
    }
    let explicit = is_file || text::starts_with_char(body, '.');
    if explicit {
        push_relative_places(&mut out, places, scope, body);
    }
    match git_source::parse_git_source(spec) {
        Some(git) => {
            push_git_places(&mut out, places, scope, git.host.as_str(), git.path.as_str());
        },
        None => {},
    }
    push_project_places(&mut out, places, scope, name.as_str(), is_npm, Ghost(read));
    push_user_places(&mut out, places, scope, name.as_str());
    if scope == ResolveScope::Any && !is_npm && !explicit {
        paths::push_path(&mut out, places.cwd.below(name.as_str()));
    }
    assert(paths::path_views(out@) =~= places_of(places@, spec@, read, scope));
    Some((out, name, is_npm))
}

/// The first of `candidates`, from the `i`th on, that is a package: a
/// directory, or the directory of a manifest.
pub open spec fn settled_on(fs: Seq<EntryModel>, candidates: Seq<PathModel>, i: int) -> Option<
    PathModel,
>
    decreases candidates.len() - i,
{
    if i < 0 || i >= candidates.len() {
        None
    } else if paths::file_at(fs, candidates[i]) && paths::name_of(candidates[i]) == Some(
        "package.json"@,
    ) {
        paths::parent_of(candidates[i])
    } else if paths::dir_at(fs, candidates[i]) {
        Some(candidates[i])
    } else {
        settled_on(fs, candidates, i + 1)
    }
}

fn settle_on(fs: &FsTree, candidates: &Vec<FsPath>) -> (r: Option<FsPath>)
    ensures
        paths::opt_path(r) == settled_on(fs@, paths::path_views(candidates@), 0),
{
    let ghost all = paths::path_views(candidates@);
    let mut i: usize = 0;
    while i < candidates.len()
        invariant
            i <= candidates@.len(),
            all == paths::path_views(candidates@),
            settled_on(fs@, all, 0) == settled_on(fs@, all, i as int),
        decreases candidates.len() - i,
    {
        let candidate = &candidates[i];
        assert(all[i as int] == candidate@);
        if fs.is_file(candidate) && candidate.is_named("package.json") {
            return candidate.parent();
        }
        if fs.is_dir(candidate) {
            return Some(candidate.copy());
        }
        i += 1;
    }
    None
}

/// A package that the package manager reported in its global root.
pub struct LegacyPackage {
    pub name: String,
    pub path: FsPath,
}

/// The model of a list of reported packages.
pub open spec fn legacy_views(v: Seq<LegacyPackage>) -> Seq<(Seq<char>, PathModel)> {
    Seq::new(v.len(), |i: int| (v[i].name@, v[i].path@))
}

/// Where the package `name` was reported, from the `i`th report on.
pub open spec fn reported_from(
    legacy: Seq<(Seq<char>, PathModel)>,
    name: Seq<char>,
    i: int,
) -> Option<PathModel>
    decreases legacy.len() - i,
{
    if i < 0 || i >= legacy.len() {
        None
    } else if legacy[i].0 == name {
        Some(legacy[i].1)
    } else {
        reported_from(legacy, name, i + 1)
    }
}

fn find_reported(legacy: &[LegacyPackage], name: &str) -> (r: Option<FsPath>)
    ensures
        paths::opt_path(r) == reported_from(legacy_views(legacy@), name@, 0),
{
    let mut i: usize = 0;
    while i < legacy.len()
        invariant
            i <= legacy@.len(),
            reported_from(legacy_views(legacy@), name@, 0) == reported_from(
                legacy_views(legacy@),
                name@,
                i as int,
            ),
        decreases legacy.len() - i,
    {
        assert(legacy_views(legacy@)[i as int] == (
            legacy@[i as int].name@,
            legacy@[i as int].path@,
        ));
        if text::same(legacy[i].name.as_str(), name) {
            return Some(legacy[i].path.copy());
        }
        i += 1;
    }
    None
}

/// The nearest `node_modules` above a package, with its links followed.
pub open spec fn modules_above(fs: Seq<EntryModel>, package: PathModel) -> Option<PathModel> {
    if package.parts.len() == 0 {
        None
    } else {
        match npm_command::node_modules_end(package.parts, package.parts.len() - 1) {
            None => None,
            Some(n) => match paths::canonical_at(
                fs,
                paths::head_of(package, n),
            ) {
                Some(root) => if root.absolute() && paths::name_of(root) == Some("node_modules"@) {
                    Some(root)
                } else {
                    None
                },
                None => None,
            },
        }
    }
}

/// The nearest `node_modules` above a package, with its links followed.
pub fn global_node_modules_root(fs: &FsTree, package: &FsPath) -> (r: Option<FsPath>)
    ensures
        paths::opt_path(r) == modules_above(fs@, package@),
{
    if package.parts.len() == 0 {
        return None;
    }
    let mut n: usize = package.parts.len() - 1;
    while n > 0
        invariant
            n < package.parts@.len(),
            npm_command::node_modules_end(package@.parts, package@.parts.len() - 1)
                == npm_command::node_modules_end(package@.parts, n as int),
        decreases n,
    {
        assert(package@.parts[n - 1] == package.parts@[n - 1]@);
        if text::same(package.parts[n - 1].as_str(), "node_modules") {
            let head = package.head(n);
            return match fs.canonicalize(&head) {
                Some(root) => if root.is_absolute() && root.is_named("node_modules") {
                    Some(root)
                } else {
                    None
                },
                None => None,
            };
        }
        n -= 1;
    }
    None
}

/// A package that was reported in a global root, checked again: it is a
/// direct package of the `node_modules` above it, under its own name.
pub open spec fn legacy_package(
    fs: Seq<EntryModel>,
    legacy: Seq<(Seq<char>, PathModel)>,
    name: Seq<char>,
) -> Option<(PathModel, PathModel)> {
    match reported_from(legacy, name, 0) {
        None => None,
        Some(reported) => match paths::canonical_at(fs, reported) {
            None => None,
            Some(found) => match modules_above(fs, found) {
                None => None,
                Some(root) => match npm_command::global_package(fs, root, name) {
                    Some(package) => if paths::same_path(package, found) {
                        Some((package, root))
                    } else {
                        None
                    },
                    None => None,
                },
            },
        },
    }
}

/// The package that a settings entry leads to, and the global root where it
/// was found in one.
pub open spec fn resolution_of(
    fs: Seq<EntryModel>,
    places: PlacesModel,
    spec: Seq<char>,
    scope: ResolveScope,
    legacy: Seq<(Seq<char>, PathModel)>,
) -> Option<(PathModel, Option<PathModel>)> {
    match read_spec(spec) {
        None => None,
        Some(read) => match settled_on(fs, places_of(places, spec, read, scope), 0) {
            Some(root) => Some((root, None)),
            None => if read.is_npm && scope.in_user() {
                match legacy_package(fs, legacy, read.name) {
                    Some((root, global)) => Some((root, Some(global))),
                    None => None,
                }
            } else {
                None
            },
        },
    }
}

/// Whether a settings entry leads nowhere unless the package manager reports
/// a package that is installed globally.
pub open spec fn asks_globally(
    fs: Seq<EntryModel>,
    places: PlacesModel,
    spec: Seq<char>,
    scope: ResolveScope,
) -> bool {
    match read_spec(spec) {
        None => false,
        Some(read) => read.is_npm && scope.in_user() && settled_on(
            fs,
            places_of(places, spec, read, scope),
            0,
        ) is None,
    }
}

/// Whether the package manager is to be asked about a settings entry.
pub fn needs_global_lookup(fs: &FsTree, places: &Places, spec: &str, scope: ResolveScope) -> (r:
    bool)
    ensures
        r == asks_globally(fs@, places@, spec@, scope),
{
    match spec_candidates(places, spec, scope) {
        Some((candidates, _, is_npm)) => is_npm && scope.in_user() && settle_on(
            fs,
            &candidates,
        ).is_none(),
        None => false,
    }
}

/// A package's directory, and the global `node_modules` where it was found
/// in one.
pub struct ResolvedPackagePath {
    pub root: FsPath,
    pub legacy_npm_root: Option<FsPath>,
}

/// The view of an optional resolution.
pub open spec fn resolution_view(o: Option<ResolvedPackagePath>) -> Option<
    (PathModel, Option<PathModel>),
> {
    match o {
        Some(r) => Some((r.root@, paths::opt_path(r.legacy_npm_root))),
        None => None,
    }
}

/// The package that a settings entry leads to. `legacy` holds what the
/// package manager reported; it is consulted last, and only to read.
pub fn resolve_spec_with_legacy_lookup(
    fs: &FsTree,
    places: &Places,
    spec: &str,
    scope: ResolveScope,
    legacy: &[LegacyPackage],
) -> (r: Option<ResolvedPackagePath>)
    ensures
        resolution_view(r) == resolution_of(
            fs@,
            places@,
            spec@,
            scope,
            legacy_views(legacy@),
        ),
{
    let (candidates, name, is_npm) = match spec_candidates(places, spec, scope) {
        Some(c) => c,
        None => {
            return None;
        },
    };
    match settle_on(fs, &candidates) {
        Some(root) => {
            return Some(ResolvedPackagePath { root, legacy_npm_root: None });
        },
        None => {},
    }
    if !is_npm || !scope.in_user() {
        return None;
    }
    let reported = match find_reported(legacy, name.as_str()) {
        Some(reported) => reported,
        None => {
            return None;
        },
    };
    let found = match fs.canonicalize(&reported) {
        Some(found) => found,
        None => {
            return None;
        },
    };
    let root = match global_node_modules_root(fs, &found) {
        Some(root) => root,
        None => {
            return None;
        },
    };
    match NpmCommand::validate_global_package_path(fs, &root, name.as_str()) {
        Some(package) => if package.same(&found) {
            Some(ResolvedPackagePath { root: package, legacy_npm_root: Some(root) })
        } else {
            None
        },
        None => None,
    }
}

/// The manifest of a package: its document, `None` where there is none, or a
/// message.
pub open spec fn manifest_of(fs: Seq<EntryModel>, root: PathModel) -> Result<
    Option<Seq<char>>,
    Seq<char>,
> {
    let path = paths::below(root, "package.json"@);
    match paths::text_at(fs, path) {
        Some(raw) => match json::document_of(raw) {
            Ok(document) => Ok(Some(document)),
            Err(error) => Err(
                "invalid package manifest "@ + paths::path_text(path) + ": "@ + error,
            ),
        },
        None => match paths::unreadable_at(fs, path) {
            Some(error) => Err("could not read "@ + paths::path_text(path) + ": "@ + error),
            None => Ok(None),
        },
    }
}

fn read_manifest(fs: &FsTree, root: &FsPath) -> (r: Result<Option<String>, String>)
    ensures
        (match r {
            Ok(document) => Ok(text::opt_text(document)),
            Err(message) => Err(message@),
        }) == manifest_of(fs@, root@),
{
    let path = root.below("package.json");
    match fs.read_text(&path) {
        Some(raw) => match json::parse_json_with_comments(raw.as_str()) {
            Ok(document) => Ok(Some(document)),
            Err(error) => {
                let shown = path.to_text();
                Err(
                    text::cat4("invalid package manifest ", shown.as_str(), ": ", error.as_str()),
                )
            },
        },
        None => match fs.read_failure(&path) {
            Some(error) => {
                let shown = path.to_text();
                Err(text::cat4("could not read ", shown.as_str(), ": ", error.as_str()))
            },
            None => Ok(None),
        },
    }
}

/// The string that a manifest has under `key`.
pub open spec fn manifest_string(manifest: Option<Seq<char>>, key: Seq<char>) -> Option<Seq<char>> {
    match manifest {
        Some(document) => json::string_at(document, key),
        None => None,
    }
}

fn string_in_manifest(manifest: &Option<String>, key: &str) -> (r: Option<String>)
    ensures
        text::opt_text(r) == manifest_string(text::opt_text(*manifest), key@),
{
    match manifest {
        Some(document) => json::get_string(document.as_str(), key),
        None => None,
    }
}

/// The npm source that an entry names, checked against the manifest's name;
/// `None` where the entry names none; or the message of a refusal.
pub open spec fn named_source(
    root: PathModel,
    spec: Seq<char>,
    global: bool,
    manifest_name: Option<Seq<char>>,
) -> Result<Option<SourceModel>, Seq<char>> {
    let says_npm = text::begins(text::trim_start_of(spec), "npm:"@);
    if says_npm && stores::npm_source_of(spec) is None {
        Err("invalid npm package source `"@ + spec + "`"@)
    } else if !says_npm && !global {
        Ok(None)
    } else if !says_npm {
        Err("legacy npm package has invalid source `"@ + spec + "`"@)
    } else {
        let source = stores::npm_source_of(spec)->0;
        match npm_spec::npm_spec_of(spec) {
            None => Err("invalid npm package source `"@ + spec + "`"@),
            Some(parsed) => match manifest_name {
                None => Err(
                    "npm package manifest "@ + paths::path_text(
                        paths::below(root, "package.json"@),
                    ) + " has no string package name; expected `"@ + parsed.manifest_name + "`"@,
                ),
                Some(actual) => if stores::source_matches(source, actual) {
                    Ok(Some(source))
                } else {
                    Err(
                        "npm package manifest name `"@ + actual
                            + "` does not match configured package `"@ + parsed.manifest_name
                            + "`"@,
                    )
                },
            },
        }
    }
}

fn check_named_source(
    root: &FsPath,
    spec: &str,
    global: bool,
    manifest_name: &Option<String>,
) -> (r: Result<Option<PackageSource>, String>)
    ensures
        (match r {
            Ok(source) => Ok(stores::opt_source(source)),
            Err(message) => Err(message@),
        }) == named_source(root@, spec@, global, text::opt_text(*manifest_name)),
{
    if !text::starts_with(text::trim_start(spec), "npm:") {
        return if global {
            Err(text::cat3("legacy npm package has invalid source `", spec, "`"))
        } else {
            Ok(None)
        };
    }
    let source = match stores::npm_source_from_spec(spec) {
        Some(source) => source,
        None => {
            return Err(text::cat3("invalid npm package source `", spec, "`"));
        },
    };
    let expected = match npm_spec::parse_npm_package_spec(spec) {
        Some(parsed) => parsed.manifest_name,
        None => {
            return Err(text::cat3("invalid npm package source `", spec, "`"));
        },
    };
    match manifest_name {
        None => {
            let shown = root.below("package.json").to_text();
            Err(
                text::cat5(
                    "npm package manifest ",
                    shown.as_str(),
                    " has no string package name; expected `",
                    expected.as_str(),
                    "`",
                ),
            )
        },
        Some(actual) => if stores::npm_source_matches_manifest(&source, actual.as_str()) {
            Ok(Some(source))
        } else {
            Err(
                text::cat5(
                    "npm package manifest name `",
                    actual.as_str(),
                    "` does not match configured package `",
                    expected.as_str(),
                    "`",
                ),
            )
        },
    }
}

/// The name that a package goes by: that of its manifest, else that of its
/// directory, else the entry.
pub open spec fn display_name(
    root: PathModel,
    spec: Seq<char>,
    manifest_name: Option<Seq<char>>,
) -> Seq<char> {
    match manifest_name {
        Some(name) => name,
        None => match paths::name_of(root) {
            Some(name) => name,
            None => spec,
        },
    }
}

/// A package's resources once a setting is applied to them.
pub open spec fn with_filter(fs: Seq<EntryModel>, p: PackageModel) -> PackageModel {
    match p.filter {
        None => p,
        Some(f) => PackageModel {
            extensions: resources::filtered(
                fs,
                p.root,
                p.extensions,
                f.extensions,
                f.autoload,
                FilterResourceKind::Extensions,
            ),
            skills: resources::filtered(
                fs,
                p.root,
                p.skills,
                f.skills,
                f.autoload,
                FilterResourceKind::Skills,
            ),
            prompts: resources::filtered(
                fs,
                p.root,
                p.prompts,
                f.prompts,
                f.autoload,
                FilterResourceKind::Prompts,
            ),
            themes: resources::filtered(
                fs,
                p.root,
                p.themes,
                f.themes,
                f.autoload,
                FilterResourceKind::Themes,
            ),
            ..p
        },
    }
}

/// Applies a setting to a package's resources.
pub fn apply_package_filter(fs: &FsTree, p: &mut PackageRoot)
    ensures
        final(p)@ == with_filter(fs@, old(p)@),
{
    match &p.filter {
        Some(f) => {
            let extensions = resources::filter_paths(
                fs,
                &p.root,
                &p.extensions,
                &f.extensions,
                f.autoload,
                FilterResourceKind::Extensions,
            );
            let skills = resources::filter_paths(
                fs,
                &p.root,
                &p.skills,
                &f.skills,
                f.autoload,
                FilterResourceKind::Skills,
            );
            let prompts = resources::filter_paths(
                fs,
                &p.root,
                &p.prompts,
                &f.prompts,
                f.autoload,
                FilterResourceKind::Prompts,
            );
            let themes = resources::filter_paths(
                fs,
                &p.root,
                &p.themes,
                &f.themes,
                f.autoload,
                FilterResourceKind::Themes,
            );
            p.extensions = extensions;
            p.skills = skills;
            p.prompts = prompts;
            p.themes = themes;
        },
        None => {},
    }
}

/// Whether an entry's filter says that the package is not loaded by itself.
pub open spec fn explicit_only(filter: Option<FilterModel>) -> bool {
    filter matches Some(f) && f.autoload == Some(false)
}

/// The package at `root` that the entry `spec` led to, or why it is refused.
pub open spec fn loaded(
    fs: Seq<EntryModel>,
    places: PlacesModel,
    root: PathModel,
    spec: Seq<char>,
    scope: ResolveScope,
    filter: Option<FilterModel>,
    global: Option<PathModel>,
) -> Result<PackageModel, Seq<char>> {
    match manifest_of(fs, root) {
        Err(message) => Err(message),
        Ok(manifest) => {
            let manifest_name = manifest_string(manifest, "name"@);
            match named_source(root, spec, global is Some, manifest_name) {
                Err(message) => Err(message),
                Ok(explicit) => {
                    let name = display_name(root, spec, manifest_name);
                    let source = if global is Some {
                        explicit->0
                    } else {
                        stores::classified(fs, places, root, spec, name, scope)
                    };
                    if explicit is Some && source == SourceModel::Unknown && stores::managed(
                        fs,
                        places,
                        root,
                        scope,
                    ) {
                        Err(
                            "managed npm package provenance does not match configured source `"@
                                + spec + "`"@,
                        )
                    } else {
                        Ok(
                            with_filter(
                                fs,
                                package_at(
                                    fs,
                                    places,
                                    root,
                                    spec,
                                    scope,
                                    filter,
                                    global,
                                    manifest,
                                    name,
                                    source,
                                ),
                            ),
                        )
                    }
                },
            }
        },
    }
}

/// The package at `root`, with the resources that its manifest selects.
pub open spec fn package_at(
    fs: Seq<EntryModel>,
    places: PlacesModel,
    root: PathModel,
    spec: Seq<char>,
    scope: ResolveScope,
    filter: Option<FilterModel>,
    global: Option<PathModel>,
    manifest: Option<Seq<char>>,
    name: Seq<char>,
    source: SourceModel,
) -> PackageModel {
    PackageModel {
        root,
        name,
        version: manifest_string(manifest, "version"@),
        manifest: if manifest is Some {
            Some(paths::below(root, "package.json"@))
        } else {
            None
        },
        spec,
        source,
        npm_install_root: if source is Npm {
            stores::npm_root_of(fs, places, root, scope)
        } else {
            None
        },
        legacy_npm_root: global,
        autoload_delta: explicit_only(filter),
        scope,
        git_store_root: if source is Git {
            stores::git_root_of(fs, places, root, scope)
        } else {
            None
        },
        git_revision: match git_source::git_source_of(spec) {
            Some(git) => if source is Git {
                git.revision
            } else {
                None
            },
            None => None,
        },
        missing_install: false,
        filter,
        skills: resources::resources_of(
            fs,
            root,
            manifest,
            "skills"@,
            FilterResourceKind::Skills,
        ),
        prompts: resources::resources_of(
            fs,
            root,
            manifest,
            "prompts"@,
            FilterResourceKind::Prompts,
        ),
        themes: resources::resources_of(
            fs,
            root,
            manifest,
            "themes"@,
            FilterResourceKind::Themes,
        ),
        system_prompts: resources::files_of(
            fs,
            root,
            resources::first_keyed(manifest, "systemPrompt"@, "system_prompt"@, "system"@),
            "SYSTEM.md"@,
        ),
        append_system_prompts: resources::files_of(
            fs,
            root,
            resources::first_keyed(
                manifest,
                "appendSystemPrompt"@,
                "append_system_prompt"@,
                "appendSystem"@,
            ),
            "APPEND_SYSTEM.md"@,
        ),
        extensions: resources::resources_of(
            fs,
            root,
            manifest,
            "extensions"@,
            FilterResourceKind::Extensions,
        ),
    }
}

pub(crate) fn copy_filter(filter: Option<&PackageFilter>) -> (r: Option<PackageFilter>)
    ensures
        opt_filter(r) == filter_ref(filter),
{
    match filter {
        Some(f) => Some(f.copy()),
        None => None,
    }
}

pub(crate) fn is_explicit_only(filter: Option<&PackageFilter>) -> (r: bool)
    ensures
        r == explicit_only(filter_ref(filter)),
{
    match filter {
        Some(f) => match f.autoload {
            Some(false) => true,
            _ => false,
        },
        None => false,
    }
}

/// The view of a package or of the message of a refusal.
pub open spec fn package_view(r: Result<PackageRoot, String>) -> Result<PackageModel, Seq<char>> {
    match r {
        Ok(p) => Ok(p@),
        Err(m) => Err(m@),
    }
}

/// Loads the package at `root` that the entry `spec` led to. A package from
/// a global root is taken only as the npm package that its manifest says.
pub fn load_package_with_legacy_root(
    fs: &FsTree,
    places: &Places,
    root: FsPath,
    spec: &str,
    scope: ResolveScope,
    filter: Option<&PackageFilter>,
    legacy_npm_root: Option<FsPath>,
) -> (r: Result<PackageRoot, String>)
    ensures
        package_view(r) == loaded(
            fs@,
            places@,
            root@,
            spec@,
            scope,
            filter_ref(filter),
            paths::opt_path(legacy_npm_root),
        ),
{
    let manifest = match read_manifest(fs, &root) {
        Ok(manifest) => manifest,
        Err(message) => {
            return Err(message);
        },
    };
    let manifest_name = string_in_manifest(&manifest, "name");
    let global = legacy_npm_root.is_some();
    let explicit = match check_named_source(&root, spec, global, &manifest_name) {
        Ok(explicit) => explicit,
        Err(message) => {
            return Err(message);
        },
    };
    let name = match manifest_name {
        Some(name) => name,
        None => match root.file_name() {
            Some(name) => name,
            None => spec.to_owned(),
        },
    };
    let is_explicit = explicit.is_some();
    let mut source = PackageSource::Unknown;
    match explicit {
        Some(named) => {
            if global {
                source = named;
            }
        },
        None => {},
    }
    if !global {
        source = stores::classify_package_source(fs, places, &root, spec, name.as_str(), scope);
    }
    let mut unknown = false;
    let mut is_npm = false;
    let mut is_git = false;
    match &source {
        PackageSource::Unknown => {
            unknown = true;
        },
        PackageSource::Npm { .. } => {
            is_npm = true;
        },
        PackageSource::Git => {
            is_git = true;
        },
        PackageSource::Local => {},
    }
    if is_explicit && unknown && stores::is_managed_package_path(fs, places, &root, scope) {
        return Err(
            text::cat3(
                "managed npm package provenance does not match configured source `",
                spec,
                "`",
            ),
        );
    }
    let npm_install_root = if is_npm {
        stores::npm_install_root_for_path(fs, places, &root, scope)
    } else {
        None
    };
    let git_store_root = if is_git {
        stores::native_git_store_root_for_path(fs, places, &root, scope)
    } else {
        None
    };
    let git_revision = if is_git {
        match git_source::parse_git_source(spec) {
            Some(git) => git.revision,
            None => None,
        }
    } else {
        None
    };
    let manifest_path = if manifest.is_some() {
        Some(root.below("package.json"))
    } else {
        None
    };
    let skills = resources::resource_paths(
        fs,
        &root,
        &manifest,
        "skills",
        FilterResourceKind::Skills,
    );
    let prompts = resources::resource_paths(
        fs,
        &root,
        &manifest,
        "prompts",
        FilterResourceKind::Prompts,
    );
    let themes = resources::resource_paths(
        fs,
        &root,
        &manifest,
        "themes",
        FilterResourceKind::Themes,
    );
    let extensions = resources::resource_paths(
        fs,
        &root,
        &manifest,
        "extensions",
        FilterResourceKind::Extensions,
    );
    let system_prompts = resources::file_paths(
        fs,
        &root,
        &manifest,
        ("systemPrompt", "system_prompt", "system"),
        "SYSTEM.md",
    );
    let append_system_prompts = resources::file_paths(
        fs,
        &root,
        &manifest,
        ("appendSystemPrompt", "append_system_prompt", "appendSystem"),
        "APPEND_SYSTEM.md",
    );
    let version = string_in_manifest(&manifest, "version");
    let mut package = PackageRoot {
        root,
        name,
        version,
        manifest: manifest_path,
        spec: spec.to_owned(),
        source,
        npm_install_root,
        legacy_npm_root,
        autoload_delta: is_explicit_only(filter),
        scope,
        git_store_root,
        git_revision,
        missing_install: false,
        filter: copy_filter(filter),
        skills,
        prompts,
        themes,
        system_prompts,
        append_system_prompts,
        extensions,
    };
    apply_package_filter(fs, &mut package);
    Ok(package)
}

/// The package that one entry leads to, with no filter and no lookup in
/// global roots, or why there is none.
pub open spec fn resolved_package(fs: Seq<EntryModel>, places: PlacesModel, spec: Seq<char>) -> Result<
    PackageModel,
    Seq<char>,
> {
    match resolution_of(fs, places, spec, ResolveScope::Any, seq![]) {
        None => Err("package path/name could not be resolved"@),
        Some((root, _)) => loaded(fs, places, root, spec, ResolveScope::Any, None, None),
    }
}

/// Finds and loads the package of one entry.
pub fn resolve_package(fs: &FsTree, places: &Places, spec: &str) -> (r: Result<
    PackageRoot,
    String,
>)
    ensures
        package_view(r) == resolved_package(fs@, places@, spec@),
{
    let nothing: Vec<LegacyPackage> = Vec::new();
    assert(legacy_views(nothing@) =~= seq![]);
    match resolve_spec_with_legacy_lookup(
        fs,
        places,
        spec,
        ResolveScope::Any,
        nothing.as_slice(),
    ) {
        Some(found) => load_package_with_legacy_root(
            fs,
            places,
            found.root,
            spec,
            ResolveScope::Any,
            None,
            None,
        ),
        None => Err("package path/name could not be resolved".to_owned()),
    }
}

/// Whatever the package manager reports of its global root, the entries of a
/// project never lead there.
pub proof fn lemma_project_ignores_global_root(
    fs: Seq<EntryModel>,
    places: PlacesModel,
    spec: Seq<char>,
    legacy: Seq<(Seq<char>, PathModel)>,
)
    ensures
        resolution_of(fs, places, spec, ResolveScope::Project, legacy) == resolution_of(
            fs,
            places,
            spec,
            ResolveScope::Project,
            seq![],
        ),
        resolution_of(fs, places, spec, ResolveScope::Project, legacy) matches Some((_, global))
            ==> global is None,
{
}

/// What the user configured cannot be shadowed by a project: it resolves the
/// same in every directory of a system.
pub proof fn lemma_user_ignores_project(
    fs: Seq<EntryModel>,
    places: PlacesModel,
    elsewhere: PathModel,
    spec: Seq<char>,
    legacy: Seq<(Seq<char>, PathModel)>,
)
    requires
        elsewhere.platform == places.cwd.platform,
    ensures
        resolution_of(fs, places, spec, ResolveScope::User, legacy) == resolution_of(
            fs,
            (PlacesModel { cwd: elsewhere, ..places }),
            spec,
            ResolveScope::User,
            legacy,
        ),
{
    let other = PlacesModel { cwd: elsewhere, ..places };
    if let Some(read) = read_spec(spec) {
        assert(places_of(places, spec, read, ResolveScope::User) =~= places_of(
            other,
            spec,
            read,
            ResolveScope::User,
        ));
    }
}

/// What a project configured stays in the project: it does not resolve to
/// the user's stores, whatever they hold.
pub proof fn lemma_project_ignores_user(
    fs: Seq<EntryModel>,
    places: PlacesModel,
    other: PlacesModel,
    spec: Seq<char>,
    legacy: Seq<(Seq<char>, PathModel)>,
)
    requires
        other.cwd == places.cwd,
    ensures
        resolution_of(fs, places, spec, ResolveScope::Project, legacy) == resolution_of(
            fs,
            other,
            spec,
            ResolveScope::Project,
            legacy,
        ),
{
    if let Some(read) = read_spec(spec) {
        assert(places_of(places, spec, read, ResolveScope::Project) =~= places_of(
            other,
            spec,
            read,
            ResolveScope::Project,
        ));
    }
}

/// A package that is configured from the registry is loaded only where its
/// manifest has the name that the entry says.
pub proof fn lemma_loaded_npm_matches_manifest(
    fs: Seq<EntryModel>,
    places: PlacesModel,
    root: PathModel,
    spec: Seq<char>,
    scope: ResolveScope,
    filter: Option<FilterModel>,
    global: Option<PathModel>,
)
    requires
        text::begins(text::trim_start_of(spec), "npm:"@),
        loaded(fs, places, root, spec, scope, filter, global) is Ok,
    ensures
        manifest_of(fs, root) is Ok,
        manifest_string(manifest_of(fs, root)->Ok_0, "name"@) matches Some(name)
            && stores::npm_source_of(spec) matches Some(source) && stores::source_matches(
            source,
            name,
        ),
{
}

/// A package keeps its place and its source whatever its filter says.
pub proof fn lemma_loaded_keeps_place(
    fs: Seq<EntryModel>,
    places: PlacesModel,
    root: PathModel,
    spec: Seq<char>,
    scope: ResolveScope,
    filter: Option<FilterModel>,
    global: Option<PathModel>,
)
    ensures
        loaded(fs, places, root, spec, scope, filter, global) matches Ok(p) ==> p.root == root
            && p.spec == spec && p.scope == scope && !p.missing_install,
{
}

/// Whatever a package's manifest and a setting select, the package that is
/// loaded has only resources within its own directory, each list sorted and
/// without repetition. The directory, with its links followed, leads to
/// itself.
pub proof fn lemma_loaded_stays_within(
    fs: Seq<EntryModel>,
    places: PlacesModel,
    root: PathModel,
    spec: Seq<char>,
    scope: ResolveScope,
    filter: Option<FilterModel>,
    global: Option<PathModel>,
    top: PathModel,
)
    requires
        paths::plain_at(fs, root) == Some(top),
        paths::plain_at(fs, top) == Some(top),
    ensures
        loaded(fs, places, root, spec, scope, filter, global) matches Ok(p) ==> {
            &&& p.root == root
            &&& resources::tidy(p.extensions, top)
            &&& resources::tidy(p.skills, top)
            &&& resources::tidy(p.prompts, top)
            &&& resources::tidy(p.themes, top)
        },
{
    if let Ok(p) = loaded(fs, places, root, spec, scope, filter, global) {
        let manifest = manifest_of(fs, root)->Ok_0;
        let skills = FilterResourceKind::Skills;
        let prompts = FilterResourceKind::Prompts;
        let themes = FilterResourceKind::Themes;
        let extensions = FilterResourceKind::Extensions;
        resources::lemma_resources_stay_within(fs, root, manifest, "skills"@, skills, top);
        resources::lemma_resources_stay_within(fs, root, manifest, "prompts"@, prompts, top);
        resources::lemma_resources_stay_within(fs, root, manifest, "themes"@, themes, top);
        resources::lemma_resources_stay_within(
            fs,
            root,
            manifest,
            "extensions"@,
            extensions,
            top,
        );
        if let Some(f) = filter {
            resources::lemma_filter_stays_within(
                fs,
                root,
                resources::resources_of(fs, root, manifest, "skills"@, skills),
                f.skills,
                f.autoload,
                skills,
                top,
            );
            resources::lemma_filter_stays_within(
                fs,
                root,
                resources::resources_of(fs, root, manifest, "prompts"@, prompts),
                f.prompts,
                f.autoload,
                prompts,
                top,
            );
            resources::lemma_filter_stays_within(
                fs,
                root,
                resources::resources_of(fs, root, manifest, "themes"@, themes),
                f.themes,
                f.autoload,
                themes,
                top,
            );
            resources::lemma_filter_stays_within(
                fs,
                root,
                resources::resources_of(fs, root, manifest, "extensions"@, extensions),
                f.extensions,
                f.autoload,
                extensions,
                top,
            );
        }
    }
}

} // verus!
