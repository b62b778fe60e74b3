//! From settings to packages: discovery, the merge of scopes, and what the
//! runtime needs installed.

use vstd::prelude::*;

use crate::git_source;
use crate::npm_command::Platform;
use crate::packages;
use crate::packages::{
    DiagnosticModel, LegacyPackage, PackageDiagnostic, PackageModel, PackageResources, PackageRoot,
    ResourcesModel,
};
use crate::paths;
use crate::paths::{EntryModel, FsPath, FsTree, PathModel};
use crate::resources;
use crate::resources::{FilterModel, FilterResourceKind, PackageFilter};
use crate::stores;
use crate::stores::{PackageSource, Places, PlacesModel, ResolveScope, SourceModel};
use crate::text;

verus! {

/// One entry of a settings file's list of packages.
pub enum PackageSetting {
    Source(String),
    Filtered(PackageFilter),
}

/// The model of `PackageSetting`.
#[verifier::ext_equal]
pub struct SettingModel {
    pub source: Seq<char>,
    pub filter: Option<FilterModel>,
}

impl View for PackageSetting {
    type V = SettingModel;

    open spec fn view(&self) -> SettingModel {
        match self {
            PackageSetting::Source(source) => SettingModel { source: source@, filter: None },
            PackageSetting::Filtered(filter) => SettingModel {
                source: filter.source@,
                filter: Some(filter@),
            },
        }
    }
}

/// The views of a list of entries.
pub open spec fn setting_views(v: Seq<PackageSetting>) -> Seq<SettingModel> {
    Seq::new(v.len(), |i: int| v[i]@)
}

impl PackageSetting {
    /// The source that the entry names.
    pub fn source(&self) -> (out: &str)
        ensures
            out@ == self@.source,
    {
        match self {
            PackageSetting::Source(source) => source.as_str(),
            PackageSetting::Filtered(filter) => filter.source.as_str(),
        }
    }

    /// The filter of the entry.
    pub fn filter(&self) -> (r: Option<&PackageFilter>)
        ensures
            packages::filter_ref(r) == self@.filter,
    {
        match self {
            PackageSetting::Source(_) => None,
            PackageSetting::Filtered(filter) => Some(filter),
        }
    }

    /// A copy of the entry.
    pub fn copy(&self) -> (r: PackageSetting)
        ensures
            r@ == self@,
    {
        match self {
            PackageSetting::Source(source) => PackageSetting::Source(source.clone()),
            PackageSetting::Filtered(filter) => PackageSetting::Filtered(filter.copy()),
        }
    }
}

/// What of one settings file concerns packages.
pub struct Settings {
    pub packages: Option<Vec<PackageSetting>>,
    pub npm_command: Option<Vec<String>>,
}

/// The entries of one settings file.
pub open spec fn entries_of(s: Settings) -> Seq<SettingModel> {
    match s.packages {
        Some(v) => setting_views(v@),
        None => seq![],
    }
}

/// The entries of the first `n` settings files, one after another.
pub open spec fn entries_among(settings: Seq<Settings>, n: int) -> Seq<SettingModel>
    decreases n,
{
    if n <= 0 {
        seq![]
    } else {
        entries_among(settings, n - 1) + entries_of(settings[n - 1])
    }
}

pub(crate) fn push_entries(out: &mut Vec<PackageSetting>, s: &Settings)
    ensures
        setting_views(final(out)@) == setting_views(old(out)@) + entries_of(*s),
{
    match &s.packages {
        Some(v) => {
            let mut i: usize = 0;
            while i < v.len()
                invariant
                    i <= v@.len(),
                    setting_views(out@) =~= setting_views(old(out)@) + setting_views(v@).take(
                        i as int,
                    ),
                decreases v.len() - i,
            {
                let entry = v[i].copy();
                let ghost before = setting_views(out@);
                let ghost added = entry@;
                out.push(entry);
                assert(setting_views(out@) =~= before.push(added));
                i += 1;
            }
            assert(setting_views(v@).take(i as int) =~= setting_views(v@));
        },
        None => {
            assert(setting_views(out@) =~= setting_views(old(out)@) + seq![]);
        },
    }
}

/// The entries of all settings files of a project.
pub fn project_entries(settings: &[Settings]) -> (out: Vec<PackageSetting>)
    ensures
        setting_views(out@) == entries_among(settings@, settings@.len() as int),
{
    let mut out: Vec<PackageSetting> = Vec::new();
    assert(setting_views(out@) =~= seq![]);
    let mut i: usize = 0;
    while i < settings.len()
        invariant
            i <= settings@.len(),
            setting_views(out@) == entries_among(settings@, i as int),
        decreases settings.len() - i,
    {
        push_entries(&mut out, &settings[i]);
        i += 1;
    }
    out
}

/// The entries of the user's settings, none where they could not be loaded.
pub open spec fn user_entries_of(settings: Result<Settings, String>) -> Seq<SettingModel> {
    match settings {
        Ok(s) => entries_of(s),
        Err(_) => seq![],
    }
}

/// The entries of the user's settings, none where they could not be loaded.
pub fn user_entries(settings: &Result<Settings, String>) -> (out: Vec<PackageSetting>)
    ensures
        setting_views(out@) == user_entries_of(*settings),
{
    let mut out: Vec<PackageSetting> = Vec::new();
    match settings {
        Ok(s) => {
            push_entries(&mut out, s);
            assert(setting_views(out@) =~= entries_of(*s));
        },
        Err(_) => {
            assert(setting_views(out@) =~= seq![]);
        },
    }
    out
}

/// A package directory that could not be put right after an interrupted
/// update.
pub struct RecoveryFailure {
    pub target: FsPath,
    pub message: String,
}

/// The views of a list of failures.
pub open spec fn recovery_views(v: Seq<RecoveryFailure>) -> Seq<(PathModel, Seq<char>)> {
    Seq::new(v.len(), |i: int| (v[i].target@, v[i].message@))
}

/// Where an interrupted update of a package may have left something.
pub open spec fn recovery_targets_of(
    places: PlacesModel,
    spec: Seq<char>,
    scope: ResolveScope,
) -> Seq<PathModel> {
    let file = match text::after_prefix(spec, "file:"@) {
        Some(rest) => if paths::path_of(places.cwd.platform, rest).absolute() {
            seq![paths::path_of(places.cwd.platform, rest)]
        } else {
            seq![]
        },
        None => seq![],
    };
    match git_source::git_source_of(spec) {
        Some(git) => file + git_targets(
            stores::git_roots(places, scope),
            places.cwd.platform,
            git,
        ),
        None => match stores::npm_source_of(spec) {
            Some(SourceModel::Npm { name, .. }) => file + npm_targets(places, scope, name),
            _ => file,
        },
    }
}

/// The checkouts of a git package below each of `roots`.
pub open spec fn git_targets(
    roots: Seq<PathModel>,
    platform: Platform,
    git: git_source::GitModel,
) -> Seq<PathModel> {
    Seq::new(
        roots.len(),
        |i: int| paths::joined_path(roots[i], stores::git_relative(platform, git)),
    )
}

/// The places of an npm package in the managed stores.
pub open spec fn npm_targets(places: PlacesModel, scope: ResolveScope, name: Seq<char>) -> Seq<
    PathModel,
> {
    let project = if scope.in_project() {
        packages::named_places(places.cwd, ".rpi/packages"@, name) + packages::named_places(
            places.cwd,
            ".pi/packages"@,
            name,
        ) + seq![paths::below(paths::below(places.cwd, ".pi/npm/node_modules"@), name)]
    } else {
        seq![]
    };
    let agent = match places.agent {
        Ok(agent) => if scope.in_user() {
            packages::named_places(agent, "packages"@, name) + seq![
                paths::below(paths::below(agent, "npm/node_modules"@), name),
            ]
        } else {
            seq![]
        },
        Err(_) => seq![],
    };
    let home = match places.home {
        Some(home) => if scope.in_user() {
            packages::named_places(home, ".pi/agent/packages"@, name) + seq![
                paths::below(paths::below(home, ".pi/agent/npm/node_modules"@), name),
            ]
        } else {
            seq![]
        },
        None => seq![],
    };
    project + agent + home
}

fn push_npm_targets(out: &mut Vec<FsPath>, places: &Places, scope: ResolveScope, name: &str)
    ensures
        paths::path_views(final(out)@) == paths::path_views(old(out)@) + npm_targets(
            places@,
            scope,
            name@,
        ),
{
    let ghost before = paths::path_views(out@);
    if scope.in_project() {
        packages::push_named_places(out, &places.cwd, ".rpi/packages", name);
        packages::push_named_places(out, &places.cwd, ".pi/packages", name);
        paths::push_path(out, places.cwd.below(".pi/npm/node_modules").below(name));
    }
    if scope.in_user() {
        match &places.agent {
            Ok(agent) => {
                packages::push_named_places(out, agent, "packages", name);
                paths::push_path(out, agent.below("npm/node_modules").below(name));
            },
            Err(_) => {},
        }
        match &places.home {
            Some(home) => {
                packages::push_named_places(out, home, ".pi/agent/packages", name);
                paths::push_path(out, home.below(".pi/agent/npm/node_modules").below(name));
            },
            None => {},
        }
    }
    assert(paths::path_views(out@) =~= before + npm_targets(places@, scope, name@));
}

/// Where an interrupted update of a package may have left something, in the
/// order in which the package is looked for.
pub fn update_recovery_targets(places: &Places, spec: &str, scope: ResolveScope) -> (out: Vec<
    FsPath,
>)
    ensures
        paths::path_views(out@) == recovery_targets_of(places@, spec@, scope),
{
    let mut out: Vec<FsPath> = Vec::new();
    assert(paths::path_views(out@) =~= seq![]);
    match text::strip_prefix(spec, "file:") {
        Some(rest) => {
            let path = FsPath::parse_on(places.cwd.system, rest);
            if path.is_absolute() {
                paths::push_path(&mut out, path);
                assert(paths::path_views(out@) =~= seq![
                    paths::path_of(places@.cwd.platform, rest@),
                ]);
            }
        },
        None => {},
    }
    let ghost file = paths::path_views(out@);
    match git_source::parse_git_source(spec) {
        Some(git) => {
            let relative = stores::git_relative_path(places.cwd.system, &git);
            let roots = stores::git_store_roots(places, scope);
            let ghost all = paths::path_views(roots@);
            let ghost targets = git_targets(all, places@.cwd.platform, git@);
            let mut i: usize = 0;
            while i < roots.len()
                invariant
                    i <= roots@.len(),
                    all == paths::path_views(roots@),
                    targets == git_targets(all, places@.cwd.platform, git@),
                    relative@ == stores::git_relative(places@.cwd.platform, git@),
                    paths::path_views(out@) =~= file + targets.take(i as int),
                decreases roots.len() - i,
            {
                assert(all[i as int] == roots@[i as int]@);
                paths::push_path(&mut out, roots[i].join(&relative));
                i += 1;
            }
            assert(targets.take(i as int) =~= targets);
            return out;
        },
        None => {},
    }
    match stores::npm_source_from_spec(spec) {
        Some(PackageSource::Npm { name, .. }) => {
            push_npm_targets(&mut out, places, scope, name.as_str());
        },
        _ => {},
    }
    out
}

/// The message of the failure for `target`, from the `i`th on.
pub open spec fn failure_for(
    failures: Seq<(PathModel, Seq<char>)>,
    target: PathModel,
    i: int,
) -> Option<Seq<char>>
    decreases failures.len() - i,
{
    if i < 0 || i >= failures.len() {
        None
    } else if paths::same_path(failures[i].0, target) {
        Some(failures[i].1)
    } else {
        failure_for(failures, target, i + 1)
    }
}

fn find_failure(failures: &[RecoveryFailure], target: &FsPath) -> (r: Option<String>)
    ensures
        text::opt_text(r) == failure_for(recovery_views(failures@), target@, 0),
{
    let mut i: usize = 0;
    while i < failures.len()
        invariant
            i <= failures@.len(),
            failure_for(recovery_views(failures@), target@, 0) == failure_for(
                recovery_views(failures@),
                target@,
                i as int,
            ),
        decreases failures.len() - i,
    {
        assert(recovery_views(failures@)[i as int] == (
            failures@[i as int].target@,
            failures@[i as int].message@,
        ));
        if failures[i].target.same(target) {
            return Some(failures[i].message.clone());
        }
        i += 1;
    }
    None
}

/// Why the package of an entry could not be put right: the failure of the
/// first target that has one, up to the first target that is there.
pub open spec fn recovery_failure(
    fs: Seq<EntryModel>,
    failures: Seq<(PathModel, Seq<char>)>,
    targets: Seq<PathModel>,
    i: int,
) -> Option<Seq<char>>
    decreases targets.len() - i,
{
    if i < 0 || i >= targets.len() {
        None
    } else if failure_for(failures, targets[i], 0) is Some {
        failure_for(failures, targets[i], 0)
    } else if paths::dir_at(fs, targets[i]) {
        None
    } else {
        recovery_failure(fs, failures, targets, i + 1)
    }
}

fn find_recovery_failure(
    fs: &FsTree,
    failures: &[RecoveryFailure],
    targets: &Vec<FsPath>,
) -> (r: Option<String>)
    ensures
        text::opt_text(r) == recovery_failure(
            fs@,
            recovery_views(failures@),
            paths::path_views(targets@),
            0,
        ),
{
    let ghost all = paths::path_views(targets@);
    let mut i: usize = 0;
    while i < targets.len()
        invariant
            i <= targets@.len(),
            all == paths::path_views(targets@),
            recovery_failure(fs@, recovery_views(failures@), all, 0) == recovery_failure(
                fs@,
                recovery_views(failures@),
                all,
                i as int,
            ),
        decreases targets.len() - i,
    {
        assert(all[i as int] == targets@[i as int]@);
        let failure = find_failure(failures, &targets[i]);
        if failure.is_some() {
            return failure;
        }
        if fs.is_dir(&targets[i]) {
            return None;
        }
        i += 1;
    }
    None
}

/// The directory that packages of one kind are installed under.
pub open spec fn managed_root(
    places: PlacesModel,
    scope: ResolveScope,
    project: Seq<char>,
    user: Seq<char>,
) -> Result<PathModel, Seq<char>> {
    match scope {
        ResolveScope::Project => Ok(paths::below(places.cwd, project)),
        _ => match places.agent {
            Ok(agent) => Ok(paths::below(agent, user)),
            Err(message) => Err(message),
        },
    }
}

/// The view of a path or of a message.
pub open spec fn path_result(r: Result<FsPath, String>) -> Result<PathModel, Seq<char>> {
    match r {
        Ok(p) => Ok(p@),
        Err(m) => Err(m@),
    }
}

fn managed_root_for_scope(
    places: &Places,
    scope: ResolveScope,
    project: &str,
    user: &str,
) -> (r: Result<FsPath, String>)
    ensures
        path_result(r) == managed_root(places@, scope, project@, user@),
{
    match scope {
        ResolveScope::Project => Ok(places.cwd.below(project)),
        _ => match &places.agent {
            Ok(agent) => Ok(agent.below(user)),
            Err(message) => Err(message.clone()),
        },
    }
}

/// The npm root that packages of a scope are installed under.
pub fn managed_npm_root_for_scope(places: &Places, scope: ResolveScope) -> (r: Result<
    FsPath,
    String,
>)
    ensures
        path_result(r) == managed_root(places@, scope, ".pi/npm"@, "npm"@),
{
    managed_root_for_scope(places, scope, ".pi/npm", "npm")
}

/// The directory that git packages of a scope are checked out in.
pub fn managed_git_root_for_scope(places: &Places, scope: ResolveScope) -> (r: Result<
    FsPath,
    String,
>)
    ensures
        path_result(r) == managed_root(places@, scope, ".pi/git"@, "git"@),
{
    managed_root_for_scope(places, scope, ".pi/git", "git")
}

/// What follows the last `/` of a repository path.
pub open spec fn last_segment(path: Seq<char>) -> Seq<char> {
    match text::cut_last(path, "/"@) {
        Some((_, last)) => if last.len() > 0 {
            last
        } else {
            path
        },
        None => path,
    }
}

/// A package that is configured but not there: where it is to be installed.
pub open spec fn missing_package(
    root: PathModel,
    name: Seq<char>,
    spec: Seq<char>,
    source: SourceModel,
    npm_install_root: Option<PathModel>,
    git_store_root: Option<PathModel>,
    git_revision: Option<Seq<char>>,
    scope: ResolveScope,
    filter: Option<FilterModel>,
) -> PackageModel {
    PackageModel {
        root,
        name,
        version: None,
        manifest: None,
        spec,
        source,
        npm_install_root,
        legacy_npm_root: None,
        autoload_delta: packages::explicit_only(filter),
        scope,
        git_store_root,
        git_revision,
        missing_install: true,
        filter,
        skills: seq![],
        prompts: seq![],
        themes: seq![],
        system_prompts: seq![],
        append_system_prompts: seq![],
        extensions: seq![],
    }
}

/// The package that an entry names and that is to be installed; none for a
/// local entry.
pub open spec fn missing_of(
    places: PlacesModel,
    spec: Seq<char>,
    scope: ResolveScope,
    filter: Option<FilterModel>,
) -> Result<Option<PackageModel>, Seq<char>> {
    match stores::npm_source_of(spec) {
        Some(source) => match managed_root(places, scope, ".pi/npm"@, "npm"@) {
            Err(message) => Err(message),
            Ok(top) => Ok(
                Some(
                    missing_package(
                        paths::below(paths::below(top, "node_modules"@), source->name),
                        source->name,
                        spec,
                        source,
                        Some(top),
                        None,
                        None,
                        scope,
                        filter,
                    ),
                ),
            ),
        },
        None => match git_source::git_source_of(spec) {
            None => Ok(None),
            Some(git) => match managed_root(places, scope, ".pi/git"@, "git"@) {
                Err(message) => Err(message),
                Ok(top) => Ok(
                    Some(
                        missing_package(
                            paths::below(paths::below(top, git.host), git.path),
                            last_segment(git.path),
                            spec,
                            SourceModel::Git,
                            None,
                            Some(top),
                            git.revision,
                            scope,
                            filter,
                        ),
                    ),
                ),
            },
        },
    }
}

fn absent_package(
    root: FsPath,
    name: String,
    spec: &str,
    source: PackageSource,
    npm_install_root: Option<FsPath>,
    git_store_root: Option<FsPath>,
    git_revision: Option<String>,
    scope: ResolveScope,
    filter: Option<&PackageFilter>,
) -> (p: PackageRoot)
    ensures
        p@ == missing_package(
            root@,
            name@,
            spec@,
            source@,
            paths::opt_path(npm_install_root),
            paths::opt_path(git_store_root),
            text::opt_text(git_revision),
            scope,
            packages::filter_ref(filter),
        ),
{
    let p = PackageRoot {
        root,
        name,
        version: None,
        manifest: None,
        spec: spec.to_owned(),
        source,
        npm_install_root,
        legacy_npm_root: None,
        autoload_delta: packages::is_explicit_only(filter),
        scope,
        git_store_root,
        git_revision,
        missing_install: true,
        filter: packages::copy_filter(filter),
        skills: Vec::new(),
        prompts: Vec::new(),
        themes: Vec::new(),
        system_prompts: Vec::new(),
        append_system_prompts: Vec::new(),
        extensions: Vec::new(),
    };
    assert(p@.skills =~= seq![] && p@.prompts =~= seq![] && p@.themes =~= seq![]);
    assert(p@.system_prompts =~= seq![] && p@.append_system_prompts =~= seq![]
        && p@.extensions =~= seq![]);
    p
}

/// The package that an entry names and that is to be installed; none for a
/// local entry.
pub fn missing_package_for_update(
    places: &Places,
    spec: &str,
    scope: ResolveScope,
    filter: Option<&PackageFilter>,
) -> (r: Result<Option<PackageRoot>, String>)
    ensures
        (match r {
            Ok(Some(p)) => Ok(Some(p@)),
            Ok(None) => Ok(None),
            Err(m) => Err(m@),
        }) == missing_of(places@, spec@, scope, packages::filter_ref(filter)),
{
    match stores::npm_source_from_spec(spec) {
        Some(source) => {
            let name = match &source {
                PackageSource::Npm { name, .. } => name.clone(),
                _ => String::new(),
            };
            let top = match managed_npm_root_for_scope(places, scope) {
                Ok(top) => top,
                Err(message) => {
                    return Err(message);
                },
            };
            let root = top.below("node_modules").below(name.as_str());
            Ok(
                Some(
                    absent_package(root, name, spec, source, Some(top), None, None, scope, filter),
                ),
            )
        },
        None => {
            let git = match git_source::parse_git_source(spec) {
                Some(git) => git,
                None => {
                    return Ok(None);
                },
            };
            let top = match managed_git_root_for_scope(places, scope) {
                Ok(top) => top,
                Err(message) => {
                    return Err(message);
                },
            };
            let root = top.below(git.host.as_str()).below(git.path.as_str());
            let name = match text::rsplit_once(git.path.as_str(), "/") {
                Some((_, last)) => if !last.is_empty() {
                    last.to_owned()
                } else {
                    git.path.clone()
                },
                None => git.path.clone(),
            };
            Ok(
                Some(
                    absent_package(
                        root,
                        name,
                        spec,
                        PackageSource::Git,
                        None,
                        Some(top),
                        git.revision,
                        scope,
                        filter,
                    ),
                ),
            )
        },
    }
}

/// A discovery under way: what was found, and the keys of what was seen.
#[verifier::ext_equal]
pub struct DiscoveryModel {
    pub packages: Seq<PackageModel>,
    pub diagnostics: Seq<DiagnosticModel>,
    pub seen: Seq<Seq<char>>,
}

/// What a discovery looks at.
pub struct Lookup<'a> {
    pub fs: &'a FsTree,
    pub places: &'a Places,
    pub scope: ResolveScope,
    /// Whether the discovery is for an update or an installation, which looks
    /// for interrupted updates and for packages that are missing.
    pub recover: bool,
    pub recovery_failures: &'a [RecoveryFailure],
    /// What the package manager reported of its global root.
    pub legacy: &'a [LegacyPackage],
}

/// The model of `Lookup`.
#[verifier::ext_equal]
pub struct LookupModel {
    pub fs: Seq<EntryModel>,
    pub places: PlacesModel,
    pub scope: ResolveScope,
    pub recover: bool,
    pub recovery_failures: Seq<(PathModel, Seq<char>)>,
    pub legacy: Seq<(Seq<char>, PathModel)>,
}

impl<'a> View for Lookup<'a> {
    type V = LookupModel;

    open spec fn view(&self) -> LookupModel {
        LookupModel {
            fs: self.fs@,
            places: self.places@,
            scope: self.scope,
            recover: self.recover,
            recovery_failures: recovery_views(self.recovery_failures@),
            legacy: packages::legacy_views(self.legacy@),
        }
    }
}

/// A discovery with one more diagnostic.
pub open spec fn complained(d: DiscoveryModel, spec: Seq<char>, message: Seq<char>) -> DiscoveryModel {
    DiscoveryModel {
        diagnostics: d.diagnostics.push(DiagnosticModel { spec, message, blocks_update: true }),
        ..d
    }
}

/// A discovery after one entry. An entry that leads to a package that was
/// seen adds nothing.
#[verifier::opaque]
pub open spec fn after_entry(
    l: LookupModel,
    entry: SettingModel,
    d: DiscoveryModel,
) -> DiscoveryModel {
    let spec = entry.source;
    let failure = if l.recover {
        recovery_failure(
            l.fs,
            l.recovery_failures,
            recovery_targets_of(l.places, spec, l.scope),
            0,
        )
    } else {
        None
    };
    if text::trim_of(spec).len() == 0 {
        d
    } else if failure is Some {
        complained(d, spec, failure->0)
    } else {
        match packages::resolution_of(l.fs, l.places, spec, l.scope, l.legacy) {
            None => if l.recover {
                match missing_of(l.places, spec, l.scope, entry.filter) {
                    Ok(Some(p)) => {
                        let key = packages::identity_of(l.fs, p);
                        if d.seen.contains(key) {
                            d
                        } else {
                            DiscoveryModel {
                                packages: d.packages.push(p),
                                seen: d.seen.push(key),
                                ..d
                            }
                        }
                    },
                    Ok(None) => d,
                    Err(message) => complained(d, spec, message),
                }
            } else {
                complained(d, spec, "package path/name could not be resolved"@)
            },
            Some((root, global)) => {
                let key = packages::path_key(l.fs, root);
                if d.seen.contains(key) {
                    d
                } else {
                    let d1 = DiscoveryModel { seen: d.seen.push(key), ..d };
                    match packages::loaded(
                        l.fs,
                        l.places,
                        root,
                        spec,
                        l.scope,
                        entry.filter,
                        global,
                    ) {
                        Ok(p) => DiscoveryModel { packages: d1.packages.push(p), ..d1 },
                        Err(message) => complained(d1, spec, message),
                    }
                }
            },
        }
    }
}

/// A discovery after the first `n` entries.
pub open spec fn after_entries(l: LookupModel, entries: Seq<SettingModel>, n: int) -> DiscoveryModel
    decreases n,
{
    if n <= 0 {
        DiscoveryModel { packages: seq![], diagnostics: seq![], seen: seq![] }
    } else {
        after_entry(l, entries[n - 1], after_entries(l, entries, n - 1))
    }
}

/// What a discovery finds.
pub open spec fn discovered(l: LookupModel, entries: Seq<SettingModel>) -> ResourcesModel {
    let d = after_entries(l, entries, entries.len() as int);
    ResourcesModel { packages: d.packages, diagnostics: d.diagnostics }
}

/// Whether an entry leads nowhere unless the package manager reports a
/// package.
pub open spec fn entry_asks(l: LookupModel, entry: SettingModel) -> bool {
    &&& text::trim_of(entry.source).len() > 0
    &&& l.recover ==> recovery_failure(
        l.fs,
        l.recovery_failures,
        recovery_targets_of(l.places, entry.source, l.scope),
        0,
    ) is None
    &&& packages::asks_globally(l.fs, l.places, entry.source, l.scope)
}

/// Whether one of the entries does.
pub open spec fn some_entry_asks(l: LookupModel, entries: Seq<SettingModel>) -> bool {
    exists|i: int| 0 <= i < entries.len() && #[trigger] entry_asks(l, entries[i])
}

/// The npm packages that the first `n` entries name, each once.
pub open spec fn npm_names_among(entries: Seq<SettingModel>, n: int) -> Seq<Seq<char>>
    decreases n,
{
    if n <= 0 {
        seq![]
    } else {
        let rest = npm_names_among(entries, n - 1);
        match stores::npm_source_of(entries[n - 1].source) {
            Some(SourceModel::Npm { name, .. }) => if rest.contains(name) {
                rest
            } else {
                rest.push(name)
            },
            _ => rest,
        }
    }
}

/// The packages that the package manager is asked about: none where every
/// entry is settled without it, else all at once.
pub open spec fn names_to_ask(l: LookupModel, entries: Seq<SettingModel>) -> Seq<Seq<char>> {
    if some_entry_asks(l, entries) {
        npm_names_among(entries, entries.len() as int)
    } else {
        seq![]
    }
}

fn find_asking(l: &Lookup, entries: &Vec<PackageSetting>) -> (r: bool)
    ensures
        r == some_entry_asks(l@, setting_views(entries@)),
{
    let ghost all = setting_views(entries@);
    let mut i: usize = 0;
    while i < entries.len()
        invariant
            i <= entries@.len(),
            all == setting_views(entries@),
            forall|j: int| 0 <= j < i ==> !#[trigger] entry_asks(l@, all[j]),
        decreases entries.len() - i,
    {
        assert(all[i as int] == entries@[i as int]@);
        let spec = entries[i].source();
        let mut open = !text::trim(spec).is_empty();
        if open && l.recover {
            let targets = update_recovery_targets(l.places, spec, l.scope);
            open = find_recovery_failure(l.fs, l.recovery_failures, &targets).is_none();
        }
        if open && packages::needs_global_lookup(l.fs, l.places, spec, l.scope) {
            assert(entry_asks(l@, all[i as int]));
            return true;
        }
        i += 1;
    }
    false
}

/// The packages that the package manager is to be asked about before a
/// discovery.
pub fn legacy_names(l: &Lookup, entries: &Vec<PackageSetting>) -> (out: Vec<String>)
    ensures
        text::texts(out@) == names_to_ask(l@, setting_views(entries@)),
{
    let ghost all = setting_views(entries@);
    let mut out: Vec<String> = Vec::new();
    assert(text::texts(out@) =~= seq![]);
    if !find_asking(l, entries) {
        return out;
    }
    let mut i: usize = 0;
    while i < entries.len()
        invariant
            i <= entries@.len(),
            all == setting_views(entries@),
            text::texts(out@) == npm_names_among(all, i as int),
        decreases entries.len() - i,
    {
        assert(all[i as int] == entries@[i as int]@);
        match stores::npm_source_from_spec(entries[i].source()) {
            Some(PackageSource::Npm { name, .. }) => {
                if !text::listed(out.as_slice(), name.as_str()) {
                    text::push_text(&mut out, name.as_str());
                }
            },
            _ => {},
        }
        i += 1;
    }
    out
}

proof fn lemma_unasked_entries(
    l: LookupModel,
    entries: Seq<SettingModel>,
    legacy: Seq<(Seq<char>, PathModel)>,
    n: int,
)
    requires
        !some_entry_asks(l, entries),
        n <= entries.len(),
    ensures
        after_entries(l, entries, n) == after_entries(LookupModel { legacy, ..l }, entries, n),
    decreases n,
{
    if n > 0 {
        reveal(after_entry);
        lemma_unasked_entries(l, entries, legacy, n - 1);
        assert(!entry_asks(l, entries[n - 1]));
    }
}

/// Where every entry is settled in the managed stores, a report of the
/// package manager changes nothing.
pub proof fn lemma_unasked_reports_change_nothing(
    l: LookupModel,
    entries: Seq<SettingModel>,
    legacy: Seq<(Seq<char>, PathModel)>,
)
    requires
        !some_entry_asks(l, entries),
    ensures
        discovered(l, entries) == discovered(LookupModel { legacy, ..l }, entries),
{
    lemma_unasked_entries(l, entries, legacy, entries.len() as int);
}

/// A discovery under way.
pub struct Discovery {
    pub out: PackageResources,
    pub seen: Vec<String>,
}

impl View for Discovery {
    type V = DiscoveryModel;

    open spec fn view(&self) -> DiscoveryModel {
        DiscoveryModel {
            packages: self.out@.packages,
            diagnostics: self.out@.diagnostics,
            seen: text::texts(self.seen@),
        }
    }
}

impl Discovery {
    fn complain(&mut self, spec: &str, message: String)
        ensures
            final(self)@ == complained(old(self)@, spec@, message@),
    {
        let diagnostic = PackageDiagnostic {
            spec: spec.to_owned(),
            message,
            blocks_update: true,
        };
        let ghost added = diagnostic@;
        self.out.diagnostics.push(diagnostic);
        assert(self@.diagnostics =~= old(self)@.diagnostics.push(added));
    }

    fn add_package(&mut self, p: PackageRoot)
        ensures
            final(self)@ == (DiscoveryModel {
                packages: old(self)@.packages.push(p@),
                ..old(self)@
            }),
    {
        let ghost added = p@;
        self.out.packages.push(p);
        assert(self@.packages =~= old(self)@.packages.push(added));
    }
}

/// Finds the packages of `entries`, in their order.
pub fn discover_with_scope_and_command(l: &Lookup, entries: &Vec<PackageSetting>) -> (out:
    PackageResources)
    ensures
        out@ == discovered(l@, setting_views(entries@)),
{
    let ghost all = setting_views(entries@);
    let mut d = Discovery {
        out: PackageResources { packages: Vec::new(), diagnostics: Vec::new() },
        seen: Vec::new(),
    };
    assert(d@.packages =~= seq![] && d@.diagnostics =~= seq![] && d@.seen =~= seq![]);
    let mut i: usize = 0;
    while i < entries.len()
        invariant
            i <= entries@.len(),
            all == setting_views(entries@),
            d@ == after_entries(l@, all, i as int),
        decreases entries.len() - i,
    {
        assert(all[i as int] == entries@[i as int]@);
        discover_entry(l, &entries[i], &mut d);
        i += 1;
    }
    assert(all.len() == entries@.len());
    d.out
}

fn discover_entry(l: &Lookup, entry: &PackageSetting, d: &mut Discovery)
    ensures
        final(d)@ == after_entry(l@, entry@, old(d)@),
{
    proof {
        reveal(after_entry);
    }
    let spec = entry.source();
    if text::trim(spec).is_empty() {
        return;
    }
    if l.recover {
        let targets = update_recovery_targets(l.places, spec, l.scope);
        match find_recovery_failure(l.fs, l.recovery_failures, &targets) {
            Some(message) => {
                d.complain(spec, message);
                return;
            },
            None => {},
        }
    }
    match packages::resolve_spec_with_legacy_lookup(l.fs, l.places, spec, l.scope, l.legacy) {
        None => {
            if !l.recover {
                d.complain(spec, "package path/name could not be resolved".to_owned());
                return;
            }
            match missing_package_for_update(l.places, spec, l.scope, entry.filter()) {
                Ok(Some(p)) => {
                    let key = packages::package_identity(l.fs, &p);
                    if !text::listed(d.seen.as_slice(), key.as_str()) {
                        text::push_text(&mut d.seen, key.as_str());
                        d.add_package(p);
                    }
                },
                Ok(None) => {},
                Err(message) => {
                    d.complain(spec, message);
                },
            }
        },
        Some(found) => {
            let key = packages::normalize_key(l.fs, &found.root);
            if text::listed(d.seen.as_slice(), key.as_str()) {
                return;
            }
            text::push_text(&mut d.seen, key.as_str());
            match packages::load_package_with_legacy_root(
                l.fs,
                l.places,
                found.root,
                spec,
                l.scope,
                entry.filter(),
                found.legacy_npm_root,
            ) {
                Ok(p) => {
                    d.add_package(p);
                },
                Err(message) => {
                    d.complain(spec, message);
                },
            }
        },
    }
}

/// A package with the changes of a filter that is not loaded by itself.
pub open spec fn with_delta(fs: Seq<EntryModel>, p: PackageModel, f: FilterModel) -> PackageModel {
    if f.autoload != Some(false) {
        p
    } else {
        PackageModel {
            extensions: delta_of(
                fs,
                p.root,
                p.extensions,
                f.extensions,
                FilterResourceKind::Extensions,
            ),
            skills: delta_of(fs, p.root, p.skills, f.skills, FilterResourceKind::Skills),
            prompts: delta_of(fs, p.root, p.prompts, f.prompts, FilterResourceKind::Prompts),
            themes: delta_of(fs, p.root, p.themes, f.themes, FilterResourceKind::Themes),
            ..p
        }
    }
}

/// One list of resources with the changes of a filter.
pub open spec fn delta_of(
    fs: Seq<EntryModel>,
    root: PathModel,
    current: Seq<PathModel>,
    patterns: Option<Seq<Seq<char>>>,
    kind: FilterResourceKind,
) -> Seq<PathModel> {
    match patterns {
        Some(patterns) => resources::changed(fs, root, current, patterns, kind),
        None => current,
    }
}

fn delta_paths(
    fs: &FsTree,
    root: &FsPath,
    current: &Vec<FsPath>,
    patterns: &Option<Vec<String>>,
    kind: FilterResourceKind,
) -> (out: Vec<FsPath>)
    ensures
        paths::path_views(out@) == delta_of(
            fs@,
            root@,
            paths::path_views(current@),
            resources::opt_list(*patterns),
            kind,
        ),
{
    match patterns {
        Some(patterns) => resources::apply_delta_paths(fs, root, current, patterns, kind),
        None => paths::copy_paths(current.as_slice()),
    }
}

/// Changes a package's resources as a filter says that is not loaded by
/// itself.
pub fn apply_autoload_delta_to_package(fs: &FsTree, p: &mut PackageRoot, filter: &PackageFilter)
    ensures
        final(p)@ == with_delta(fs@, old(p)@, filter@),
{
    match filter.autoload {
        Some(false) => {},
        _ => {
            return;
        },
    }
    p.extensions = delta_paths(
        fs,
        &p.root,
        &p.extensions,
        &filter.extensions,
        FilterResourceKind::Extensions,
    );
    p.skills = delta_paths(fs, &p.root, &p.skills, &filter.skills, FilterResourceKind::Skills);
    p.prompts = delta_paths(
        fs,
        &p.root,
        &p.prompts,
        &filter.prompts,
        FilterResourceKind::Prompts,
    );
    p.themes = delta_paths(fs, &p.root, &p.themes, &filter.themes, FilterResourceKind::Themes);
}

/// A merge under way: the packages that are kept, and the identity of each.
#[verifier::ext_equal]
pub struct MergeModel {
    pub packages: Seq<PackageModel>,
    pub identities: Seq<Seq<char>>,
}

/// The first position of `key`, from the `i`th on.
pub open spec fn position_of(keys: Seq<Seq<char>>, key: Seq<char>, i: int) -> Option<int>
    decreases keys.len() - i,
{
    if i < 0 || i >= keys.len() {
        None
    } else if keys[i] == key {
        Some(i)
    } else {
        position_of(keys, key, i + 1)
    }
}

fn find_position(keys: &Vec<String>, key: &str) -> (r: Option<usize>)
    ensures
        text::position(r) == position_of(text::texts(keys@), key@, 0),
        r matches Some(i) ==> i < keys@.len(),
{
    let mut i: usize = 0;
    while i < keys.len()
        invariant
            i <= keys@.len(),
            position_of(text::texts(keys@), key@, 0) == position_of(
                text::texts(keys@),
                key@,
                i as int,
            ),
        decreases keys.len() - i,
    {
        assert(text::texts(keys@)[i as int] == keys@[i as int]@);
        if text::same(keys[i].as_str(), key) {
            return Some(i);
        }
        i += 1;
    }
    None
}

/// A merge after one more package. A package whose identity is there is
/// dropped, except that a user's package takes the place of a project's
/// entry that only changes it, with those changes.
pub open spec fn after_merge(fs: Seq<EntryModel>, p: PackageModel, m: MergeModel) -> MergeModel {
    let identity = packages::identity_of(fs, p);
    match position_of(m.identities, identity, 0) {
        None => MergeModel {
            packages: m.packages.push(p),
            identities: m.identities.push(identity),
        },
        Some(i) => {
            let existing = m.packages[i];
            if p.scope == ResolveScope::User && existing.autoload_delta {
                let base = match existing.filter {
                    Some(f) => with_delta(fs, p, f),
                    None => p,
                };
                MergeModel { packages: m.packages.update(i, base), ..m }
            } else {
                m
            }
        },
    }
}

/// A merge after the first `n` packages.
pub open spec fn merged_packages(fs: Seq<EntryModel>, all: Seq<PackageModel>, n: int) -> MergeModel
    decreases n,
{
    if n <= 0 {
        MergeModel { packages: seq![], identities: seq![] }
    } else {
        after_merge(fs, all[n - 1], merged_packages(fs, all, n - 1))
    }
}

/// The project's packages and those of the user, each once.
pub open spec fn merged(
    fs: Seq<EntryModel>,
    project: ResourcesModel,
    user: ResourcesModel,
) -> ResourcesModel {
    let all = project.packages + user.packages;
    ResourcesModel {
        packages: merged_packages(fs, all, all.len() as int).packages,
        diagnostics: project.diagnostics + user.diagnostics,
    }
}

fn merge_package(
    fs: &FsTree,
    p: PackageRoot,
    kept: &mut Vec<PackageRoot>,
    identities: &mut Vec<String>,
)
    requires
        old(kept)@.len() == old(identities)@.len(),
    ensures
        (MergeModel {
            packages: packages::package_views(final(kept)@),
            identities: text::texts(final(identities)@),
        }) == after_merge(
            fs@,
            p@,
            MergeModel {
                packages: packages::package_views(old(kept)@),
                identities: text::texts(old(identities)@),
            },
        ),
        final(kept)@.len() == final(identities)@.len(),
{
    let identity = packages::package_identity(fs, &p);
    match find_position(identities, identity.as_str()) {
        None => {
            let ghost added = p@;
            kept.push(p);
            let ghost keys = text::texts(identities@);
            text::push_text(identities, identity.as_str());
            assert(text::texts(identities@).len() == keys.len() + 1);
            assert(packages::package_views(kept@) =~= packages::package_views(old(kept)@).push(
                added,
            ));
        },
        Some(i) => {
            assert(packages::package_views(kept@)[i as int] == kept@[i as int]@);
            if p.scope == ResolveScope::User && kept[i].autoload_delta {
                let mut base = p;
                match &kept[i].filter {
                    Some(f) => {
                        apply_autoload_delta_to_package(fs, &mut base, f);
                    },
                    None => {},
                }
                let ghost new = base@;
                kept.set(i, base);
                assert(packages::package_views(kept@) =~= packages::package_views(
                    old(kept)@,
                ).update(i as int, new));
            }
        },
    }
}

fn merge_all(
    fs: &FsTree,
    list: Vec<PackageRoot>,
    kept: &mut Vec<PackageRoot>,
    identities: &mut Vec<String>,
    Ghost(all): Ghost<Seq<PackageModel>>,
    Ghost(start): Ghost<int>,
)
    requires
        old(kept)@.len() == old(identities)@.len(),
        0 <= start,
        start + list@.len() <= all.len(),
        forall|i: int| 0 <= i < list@.len() ==> all[start + i] == (#[trigger] list@[i])@,
        merged_packages(fs@, all, start) == (MergeModel {
            packages: packages::package_views(old(kept)@),
            identities: text::texts(old(identities)@),
        }),
    ensures
        final(kept)@.len() == final(identities)@.len(),
        merged_packages(fs@, all, start + list@.len()) == (MergeModel {
            packages: packages::package_views(final(kept)@),
            identities: text::texts(final(identities)@),
        }),
{
    let ghost given = list@;
    let mut rest: Vec<PackageRoot> = Vec::new();
    let mut list = list;
    while list.len() > 0
        invariant
            list@.len() + rest@.len() == given.len(),
            list@ =~= given.take(list@.len() as int),
            forall|i: int|
                0 <= i < rest@.len() ==> #[trigger] rest@[i] == given[given.len() - 1 - i],
        decreases list.len(),
    {
        match list.pop() {
            Some(p) => {
                rest.push(p);
            },
            None => {},
        }
    }
    let ghost mut done: int = 0;
    while rest.len() > 0
        invariant
            0 <= done,
            done + rest@.len() == given.len(),
            start + given.len() <= all.len(),
            0 <= start,
            forall|i: int| 0 <= i < given.len() ==> all[start + i] == (#[trigger] given[i])@,
            forall|i: int|
                0 <= i < rest@.len() ==> #[trigger] rest@[i] == given[given.len() - 1 - i],
            kept@.len() == identities@.len(),
            merged_packages(fs@, all, start + done) == (MergeModel {
                packages: packages::package_views(kept@),
                identities: text::texts(identities@),
            }),
        decreases rest.len(),
    {
        let ghost before = rest@;
        match rest.pop() {
            Some(p) => {
                assert(p == before[before.len() - 1]);
                assert(p@ == all[start + done]) by {
                    assert(before[before.len() - 1] == given[done]);
                }
                merge_package(fs, p, kept, identities);
                proof {
                    done = done + 1;
                }
            },
            None => {},
        }
    }
}

/// Puts the project's packages and those of the user together, each package
/// once. The project's come first and win.
pub fn merge_scoped_resources(fs: &FsTree, project: PackageResources, user: PackageResources) -> (out:
    PackageResources)
    ensures
        out@ == merged(fs@, project@, user@),
{
    let ghost all = project@.packages + user@.packages;
    let mut kept: Vec<PackageRoot> = Vec::new();
    let mut identities: Vec<String> = Vec::new();
    assert(packages::package_views(kept@) =~= seq![]);
    assert(text::texts(identities@) =~= seq![]);
    let ghost first = project.packages@.len();
    assert(forall|i: int|
        0 <= i < project.packages@.len() ==> all[0 + i] == (#[trigger] project.packages@[i])@);
    assert(forall|i: int|
        0 <= i < user.packages@.len() ==> all[first + i] == (#[trigger] user.packages@[i])@);
    merge_all(fs, project.packages, &mut kept, &mut identities, Ghost(all), Ghost(0));
    merge_all(fs, user.packages, &mut kept, &mut identities, Ghost(all), Ghost(first as int));
    let mut diagnostics = project.diagnostics;
    let ghost before = packages::diagnostic_views(diagnostics@);
    let mut more = user.diagnostics;
    let ghost added = packages::diagnostic_views(more@);
    diagnostics.append(&mut more);
    assert(packages::diagnostic_views(diagnostics@) =~= before + added);
    PackageResources { packages: kept, diagnostics }
}

proof fn lemma_position(keys: Seq<Seq<char>>, key: Seq<char>, i: int)
    requires
        0 <= i,
    ensures
        match position_of(keys, key, i) {
            Some(k) => i <= k < keys.len() && keys[k] == key,
            None => forall|k: int| i <= k < keys.len() ==> #[trigger] keys[k] != key,
        },
    decreases keys.len() - i,
{
    if i < keys.len() && keys[i] != key {
        lemma_position(keys, key, i + 1);
    }
}

proof fn lemma_merge(fs: Seq<EntryModel>, all: Seq<PackageModel>, n: int)
    requires
        0 <= n <= all.len(),
    ensures
        ({
            let m = merged_packages(fs, all, n);
            &&& m.packages.len() == m.identities.len()
            &&& forall|i: int|
                0 <= i < m.packages.len() ==> packages::identity_of(fs, #[trigger] m.packages[i])
                    == m.identities[i]
            &&& forall|i: int, j: int|
                0 <= i < j < m.identities.len() ==> #[trigger] m.identities[i]
                    != #[trigger] m.identities[j]
            &&& forall|k: int|
                0 <= k < n ==> m.identities.contains(
                    packages::identity_of(fs, #[trigger] all[k]),
                )
        }),
    decreases n,
{
    if n > 0 {
        lemma_merge(fs, all, n - 1);
        let before = merged_packages(fs, all, n - 1);
        let m = merged_packages(fs, all, n);
        let p = all[n - 1];
        let identity = packages::identity_of(fs, p);
        lemma_position(before.identities, identity, 0);
        match position_of(before.identities, identity, 0) {
            None => {
                assert(m.identities[before.identities.len() as int] == identity);
            },
            Some(i) => {
                assert(m.identities == before.identities);
                if p.scope == ResolveScope::User && before.packages[i].autoload_delta {
                    let base = m.packages[i];
                    assert(base.source == p.source && base.spec == p.spec && base.root == p.root);
                    assert(packages::identity_of(fs, base) == identity);
                    assert forall|j: int| 0 <= j < m.packages.len() implies packages::identity_of(
                        fs,
                        #[trigger] m.packages[j],
                    ) == m.identities[j] by {
                        if j != i {
                            assert(m.packages[j] == before.packages[j]);
                        }
                    }
                }
            },
        }
        assert forall|k: int| 0 <= k < n implies m.identities.contains(
            packages::identity_of(fs, #[trigger] all[k]),
        ) by {
            if k < n - 1 {
                let key = packages::identity_of(fs, all[k]);
                assert(before.identities.contains(key));
                let at = choose|at: int|
                    0 <= at < before.identities.len() && before.identities[at] == key;
                assert(m.identities[at] == key);
            }
        }
    }
}

/// A package that is configured for the project and for the user is there
/// once: no two packages of a merge have one identity.
pub proof fn lemma_merged_once(
    fs: Seq<EntryModel>,
    project: ResourcesModel,
    user: ResourcesModel,
    i: int,
    j: int,
)
    requires
        0 <= i < j < merged(fs, project, user).packages.len(),
    ensures
        packages::identity_of(fs, merged(fs, project, user).packages[i]) != packages::identity_of(
            fs,
            merged(fs, project, user).packages[j],
        ),
{
    let all = project.packages + user.packages;
    lemma_merge(fs, all, all.len() as int);
    let m = merged_packages(fs, all, all.len() as int);
    assert(m.identities[i] != m.identities[j]);
}

/// A merge loses no package: what was in either part is there under its
/// identity.
pub proof fn lemma_merge_loses_nothing(
    fs: Seq<EntryModel>,
    project: ResourcesModel,
    user: ResourcesModel,
    k: int,
)
    requires
        0 <= k < (project.packages + user.packages).len(),
    ensures
        exists|i: int|
            0 <= i < merged(fs, project, user).packages.len() && packages::identity_of(
                fs,
                #[trigger] merged(fs, project, user).packages[i],
            ) == packages::identity_of(fs, (project.packages + user.packages)[k]),
{
    let all = project.packages + user.packages;
    lemma_merge(fs, all, all.len() as int);
    let m = merged_packages(fs, all, all.len() as int);
    let key = packages::identity_of(fs, all[k]);
    assert(m.identities.contains(key));
    let i = choose|i: int| 0 <= i < m.identities.len() && m.identities[i] == key;
    assert(packages::identity_of(fs, merged(fs, project, user).packages[i]) == key);
}

proof fn lemma_entries(l: LookupModel, entries: Seq<SettingModel>, n: int)
    requires
        0 <= n <= entries.len(),
    ensures
        ({
            let d = after_entries(l, entries, n);
            &&& forall|i: int|
                0 <= i < d.packages.len() && !(#[trigger] d.packages[i]).missing_install
                    ==> d.seen.contains(packages::path_key(l.fs, d.packages[i].root))
            &&& forall|i: int, j: int|
                0 <= i < j < d.packages.len() && !(#[trigger] d.packages[i]).missing_install && !(
                #[trigger] d.packages[j]).missing_install ==> packages::path_key(
                    l.fs,
                    d.packages[i].root,
                ) != packages::path_key(l.fs, d.packages[j].root)
        }),
    decreases n,
{
    if n > 0 {
        reveal(after_entry);
        lemma_entries(l, entries, n - 1);
        let before = after_entries(l, entries, n - 1);
        let d = after_entries(l, entries, n);
        let entry = entries[n - 1];
        if let Some((root, global)) = packages::resolution_of(
            l.fs,
            l.places,
            entry.source,
            l.scope,
            l.legacy,
        ) {
            packages::lemma_loaded_keeps_place(
                l.fs,
                l.places,
                root,
                entry.source,
                l.scope,
                entry.filter,
                global,
            );
        }
        assert forall|i: int|
            0 <= i < d.packages.len() && !(#[trigger] d.packages[i]).missing_install implies d.seen.contains(
            packages::path_key(l.fs, d.packages[i].root),
        ) by {
            let key = packages::path_key(l.fs, d.packages[i].root);
            if i < before.packages.len() {
                assert(d.packages[i] == before.packages[i]);
                assert(before.seen.contains(key));
                let at = choose|at: int| 0 <= at < before.seen.len() && before.seen[at] == key;
                assert(d.seen[at] == key);
            } else {
                assert(d.seen[before.seen.len() as int] == key);
            }
        }
    }
}

/// One discovery finds a place once, however many entries lead there.
pub proof fn lemma_places_found_once(
    l: LookupModel,
    entries: Seq<SettingModel>,
    i: int,
    j: int,
)
    requires
        0 <= i < j < discovered(l, entries).packages.len(),
        !discovered(l, entries).packages[i].missing_install,
        !discovered(l, entries).packages[j].missing_install,
    ensures
        packages::path_key(l.fs, discovered(l, entries).packages[i].root) != packages::path_key(
            l.fs,
            discovered(l, entries).packages[j].root,
        ),
{
    lemma_entries(l, entries, entries.len() as int);
}

/// Whether a package that is not installed comes from a registry or a
/// repository.
pub open spec fn awaited(p: PackageModel, recover: bool) -> bool {
    p.missing_install ==> recover && (p.source is Npm || p.source is Git)
}

proof fn lemma_entries_awaited(l: LookupModel, entries: Seq<SettingModel>, n: int)
    requires
        0 <= n <= entries.len(),
    ensures
        forall|i: int|
            0 <= i < after_entries(l, entries, n).packages.len() ==> awaited(
                #[trigger] after_entries(l, entries, n).packages[i],
                l.recover,
            ),
    decreases n,
{
    if n > 0 {
        reveal(after_entry);
        lemma_entries_awaited(l, entries, n - 1);
        let before = after_entries(l, entries, n - 1).packages;
        let after = after_entries(l, entries, n).packages;
        assert forall|i: int| 0 <= i < after.len() implies awaited(
            #[trigger] after[i],
            l.recover,
        ) by {
            if i < before.len() {
                assert(after[i] == before[i]);
            }
        }
    }
}

proof fn lemma_merge_awaited(
    fs: Seq<EntryModel>,
    all: Seq<PackageModel>,
    n: int,
    recover: bool,
)
    requires
        0 <= n <= all.len(),
        forall|i: int| 0 <= i < all.len() ==> awaited(#[trigger] all[i], recover),
    ensures
        merged_packages(fs, all, n).packages.len() == merged_packages(fs, all, n).identities.len(),
        forall|i: int|
            0 <= i < merged_packages(fs, all, n).packages.len() ==> awaited(
                #[trigger] merged_packages(fs, all, n).packages[i],
                recover,
            ),
    decreases n,
{
    if n > 0 {
        lemma_merge_awaited(fs, all, n - 1, recover);
        let m = merged_packages(fs, all, n - 1);
        let p = all[n - 1];
        let identity = packages::identity_of(fs, p);
        lemma_position(m.identities, identity, 0);
        let out = after_merge(fs, p, m);
        assert(awaited(p, recover));
        assert forall|i: int| 0 <= i < out.packages.len() implies awaited(
            #[trigger] out.packages[i],
            recover,
        ) by {
            if i < m.packages.len() {
                assert(awaited(m.packages[i], recover));
            }
        }
    }
}

/// A package that is not installed is only listed where installations are
/// prepared, and then comes from a registry or a repository.
pub proof fn lemma_missing_are_awaited(
    project: LookupModel,
    project_entries: Seq<SettingModel>,
    user: LookupModel,
    user_entries: Seq<SettingModel>,
    i: int,
)
    requires
        project.recover == user.recover,
        0 <= i < merged(
            user.fs,
            discovered(project, project_entries),
            discovered(user, user_entries),
        ).packages.len(),
    ensures
        awaited(
            merged(
                user.fs,
                discovered(project, project_entries),
                discovered(user, user_entries),
            ).packages[i],
            user.recover,
        ),
{
    lemma_entries_awaited(project, project_entries, project_entries.len() as int);
    lemma_entries_awaited(user, user_entries, user_entries.len() as int);
    let first = discovered(project, project_entries).packages;
    let second = discovered(user, user_entries).packages;
    let all = first + second;
    assert forall|k: int| 0 <= k < all.len() implies awaited(#[trigger] all[k], user.recover) by {
        if k < first.len() {
            assert(all[k] == first[k]);
        } else {
            assert(all[k] == second[k - first.len()]);
        }
    }
    lemma_merge_awaited(user.fs, all, all.len() as int, user.recover);
}

} // verus!
