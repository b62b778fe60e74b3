//! What the extension runtime loads, and what must be installed first.

use vstd::prelude::*;

use crate::discovery;
use crate::discovery::{Lookup, LookupModel, PackageSetting, RecoveryFailure, Settings};
use crate::npm_spec;
use crate::packages;
use crate::packages::{
    DiagnosticModel, LegacyPackage, PackageDiagnostic, PackageModel, PackageResources, PackageRoot,
    ResourcesModel,
};
use crate::paths;
use crate::paths::{EntryModel, FsPath, FsTree, PathModel};
use crate::stores::{PackageSource, Places, PlacesModel, ResolveScope, SourceModel};
use crate::text;
use crate::version;

verus! {

/// Everything that the resolution of packages reads.
pub struct Workspace<'a> {
    pub fs: &'a FsTree,
    pub places: &'a Places,
    /// The project's settings files, in their order of precedence.
    pub project_settings: &'a [Settings],
    /// The user's settings, or why they could not be loaded.
    pub user_settings: &'a Result<Settings, String>,
    pub recovery_failures: &'a [RecoveryFailure],
    /// What the package manager reported of its global root.
    pub legacy: &'a [LegacyPackage],
}

/// How a workspace is looked at for one scope.
pub open spec fn lookup_of(w: Workspace, scope: ResolveScope, recover: bool, global: bool) -> LookupModel {
    LookupModel {
        fs: w.fs@,
        places: w.places@,
        scope,
        recover,
        recovery_failures: discovery::recovery_views(w.recovery_failures@),
        legacy: if global {
            packages::legacy_views(w.legacy@)
        } else {
            seq![]
        },
    }
}

/// The project's entries, where the project takes part.
pub open spec fn project_part(w: Workspace, include_project: bool) -> Seq<discovery::SettingModel> {
    if include_project {
        discovery::entries_among(w.project_settings@, w.project_settings@.len() as int)
    } else {
        seq![]
    }
}

/// The packages of the project, where it takes part, and of the user.
pub open spec fn configured(
    w: Workspace,
    include_project: bool,
    recover: bool,
    global: bool,
) -> ResourcesModel {
    discovery::merged(
        w.fs@,
        discovery::discovered(
            lookup_of(w, ResolveScope::Project, recover, global),
            project_part(w, include_project),
        ),
        discovery::discovered(
            lookup_of(w, ResolveScope::User, recover, global),
            discovery::user_entries_of(*w.user_settings),
        ),
    )
}

/// The packages of the project, where it takes part, and of the user.
pub fn discover_configured_packages(
    w: &Workspace,
    include_project: bool,
    recover: bool,
    global: bool,
) -> (out: PackageResources)
    ensures
        out@ == configured(*w, include_project, recover, global),
{
    let nothing: Vec<LegacyPackage> = Vec::new();
    assert(packages::legacy_views(nothing@) =~= seq![]);
    let legacy = if global {
        w.legacy
    } else {
        nothing.as_slice()
    };
    let project_specs: Vec<PackageSetting> = if include_project {
        discovery::project_entries(w.project_settings)
    } else {
        let none: Vec<PackageSetting> = Vec::new();
        assert(discovery::setting_views(none@) =~= seq![]);
        none
    };
    let user_specs = discovery::user_entries(w.user_settings);
    let project_lookup = Lookup {
        fs: w.fs,
        places: w.places,
        scope: ResolveScope::Project,
        recover,
        recovery_failures: w.recovery_failures,
        legacy,
    };
    let user_lookup = Lookup {
        fs: w.fs,
        places: w.places,
        scope: ResolveScope::User,
        recover,
        recovery_failures: w.recovery_failures,
        legacy,
    };
    assert(project_lookup@ =~= lookup_of(*w, ResolveScope::Project, recover, global));
    assert(user_lookup@ =~= lookup_of(*w, ResolveScope::User, recover, global));
    let project = discovery::discover_with_scope_and_command(&project_lookup, &project_specs);
    let user = discovery::discover_with_scope_and_command(&user_lookup, &user_specs);
    discovery::merge_scoped_resources(w.fs, project, user)
}

/// The packages that the settings enable. A missing list enables none.
pub fn discover_from_settings(w: &Workspace) -> (out: PackageResources)
    ensures
        out@ == configured(*w, true, false, true),
{
    discover_configured_packages(w, true, false, true)
}

/// The packages that the user's settings enable; nothing of the project is
/// read.
pub fn discover_from_global_settings(w: &Workspace) -> (out: PackageResources)
    ensures
        out@ == discovery::discovered(
            lookup_of(*w, ResolveScope::User, false, true),
            discovery::user_entries_of(*w.user_settings),
        ),
{
    let specs = discovery::user_entries(w.user_settings);
    let lookup = Lookup {
        fs: w.fs,
        places: w.places,
        scope: ResolveScope::User,
        recover: false,
        recovery_failures: w.recovery_failures,
        legacy: w.legacy,
    };
    assert(lookup@ =~= lookup_of(*w, ResolveScope::User, false, true));
    discovery::discover_with_scope_and_command(&lookup, &specs)
}

/// Entries that are plain sources.
pub open spec fn plain_entries(specs: Seq<Seq<char>>) -> Seq<discovery::SettingModel> {
    Seq::new(specs.len(), |i: int| discovery::SettingModel { source: specs[i], filter: None })
}

/// The packages that `specs` name, in their order, whatever the scope.
pub fn discover(w: &Workspace, specs: &[String]) -> (out: PackageResources)
    ensures
        out@ == discovery::discovered(
            lookup_of(*w, ResolveScope::Any, false, true),
            plain_entries(text::texts(specs@)),
        ),
{
    let mut entries: Vec<PackageSetting> = Vec::new();
    let mut i: usize = 0;
    while i < specs.len()
        invariant
            i <= specs@.len(),
            discovery::setting_views(entries@) =~= plain_entries(text::texts(specs@)).take(
                i as int,
            ),
        decreases specs.len() - i,
    {
        let entry = PackageSetting::Source(specs[i].clone());
        let ghost before = discovery::setting_views(entries@);
        let ghost added = entry@;
        entries.push(entry);
        assert(discovery::setting_views(entries@) =~= before.push(added));
        i += 1;
    }
    assert(discovery::setting_views(entries@) =~= plain_entries(text::texts(specs@)));
    let lookup = Lookup {
        fs: w.fs,
        places: w.places,
        scope: ResolveScope::Any,
        recover: false,
        recovery_failures: w.recovery_failures,
        legacy: w.legacy,
    };
    assert(lookup@ =~= lookup_of(*w, ResolveScope::Any, false, true));
    discovery::discover_with_scope_and_command(&lookup, &entries)
}

/// Whether an npm package must be installed before it is loaded: it is
/// missing, or its version is known not to meet what is configured.
pub open spec fn needs_install(p: PackageModel) -> bool {
    match p.source {
        SourceModel::Npm { spec, .. } => p.missing_install || (npm_spec::npm_spec_of(
            spec,
        ) matches Some(parsed) && parsed.target_selector matches Some(requested)
            && version::npm_verdict(p.version, requested) == Some(false)),
        _ => false,
    }
}

/// Whether an npm package must be installed before it is loaded.
pub fn runtime_npm_needs_install(package: &PackageRoot) -> (r: bool)
    ensures
        r == needs_install(package@),
{
    match &package.source {
        PackageSource::Npm { spec, .. } => {
            if package.missing_install {
                return true;
            }
            match npm_spec::parse_npm_package_spec(spec.as_str()) {
                Some(parsed) => match parsed.target_selector {
                    Some(requested) => {
                        let installed: Option<&str> = match &package.version {
                            Some(v) => Some(v.as_str()),
                            None => None,
                        };
                        match version::npm_version_matches_requirement(
                            installed,
                            requested.as_str(),
                        ) {
                            Some(false) => true,
                            _ => false,
                        }
                    },
                    None => false,
                },
                None => false,
            }
        },
        _ => false,
    }
}

/// A package that must not be loaded, and why.
pub struct RuntimeFailure {
    pub identity: String,
    pub spec: String,
    pub message: String,
}

/// The model of `RuntimeFailure`.
#[verifier::ext_equal]
pub struct FailureModel {
    pub identity: Seq<char>,
    pub spec: Seq<char>,
    pub message: Seq<char>,
}

impl View for RuntimeFailure {
    type V = FailureModel;

    open spec fn view(&self) -> FailureModel {
        FailureModel { identity: self.identity@, spec: self.spec@, message: self.message@ }
    }
}

/// The views of a list of failures.
pub open spec fn failure_views(v: Seq<RuntimeFailure>) -> Seq<FailureModel> {
    Seq::new(v.len(), |i: int| v[i]@)
}

/// The position of the failure of a package, from the `i`th on.
pub open spec fn failure_slot(failures: Seq<FailureModel>, identity: Seq<char>, i: int) -> Option<
    int,
>
    decreases failures.len() - i,
{
    if i < 0 || i >= failures.len() {
        None
    } else if failures[i].identity == identity {
        Some(i)
    } else {
        failure_slot(failures, identity, i + 1)
    }
}

/// A list of failures with one more; a package has one failure, the last.
pub open spec fn with_failure(failures: Seq<FailureModel>, f: FailureModel) -> Seq<FailureModel> {
    match failure_slot(failures, f.identity, 0) {
        Some(i) => failures.update(i, f),
        None => failures.push(f),
    }
}

/// A list of failures with the first `n` of `more`.
pub open spec fn with_failures(failures: Seq<FailureModel>, more: Seq<FailureModel>, n: int) -> Seq<
    FailureModel,
>
    decreases n,
{
    if n <= 0 {
        failures
    } else {
        with_failure(with_failures(failures, more, n - 1), more[n - 1])
    }
}

fn find_slot(failures: &Vec<RuntimeFailure>, identity: &str) -> (r: Option<usize>)
    ensures
        text::position(r) == failure_slot(failure_views(failures@), identity@, 0),
        r matches Some(i) ==> i < failures@.len(),
{
    let mut i: usize = 0;
    while i < failures.len()
        invariant
            i <= failures@.len(),
            failure_slot(failure_views(failures@), identity@, 0) == failure_slot(
                failure_views(failures@),
                identity@,
                i as int,
            ),
        decreases failures.len() - i,
    {
        assert(failure_views(failures@)[i as int] == failures@[i as int]@);
        if text::same(failures[i].identity.as_str(), identity) {
            return Some(i);
        }
        i += 1;
    }
    None
}

/// Adds a failure to a list.
pub fn add_failure(failures: &mut Vec<RuntimeFailure>, f: RuntimeFailure)
    ensures
        failure_views(final(failures)@) == with_failure(failure_views(old(failures)@), f@),
{
    let ghost added = f@;
    match find_slot(failures, f.identity.as_str()) {
        Some(i) => {
            failures.set(i, f);
            assert(failure_views(failures@) =~= failure_views(old(failures)@).update(
                i as int,
                added,
            ));
        },
        None => {
            failures.push(f);
            assert(failure_views(failures@) =~= failure_views(old(failures)@).push(added));
        },
    }
}

/// The failures of the first `n` packages: those that still need to be
/// installed.
pub open spec fn mismatches(
    fs: Seq<EntryModel>,
    packages: Seq<PackageModel>,
    n: int,
    message: Seq<char>,
) -> Seq<FailureModel>
    decreases n,
{
    if n <= 0 {
        seq![]
    } else {
        let rest = mismatches(fs, packages, n - 1, message);
        let p = packages[n - 1];
        if needs_install(p) {
            with_failure(
                rest,
                FailureModel {
                    identity: packages::identity_of(fs, p),
                    spec: p.spec,
                    message,
                },
            )
        } else {
            rest
        }
    }
}

/// The failures of the packages that still need to be installed.
pub fn runtime_npm_mismatch_failures(
    fs: &FsTree,
    resources: &PackageResources,
    message: &str,
) -> (out: Vec<RuntimeFailure>)
    ensures
        failure_views(out@) == mismatches(
            fs@,
            resources@.packages,
            resources@.packages.len() as int,
            message@,
        ),
{
    let mut out: Vec<RuntimeFailure> = Vec::new();
    assert(failure_views(out@) =~= seq![]);
    let mut i: usize = 0;
    while i < resources.packages.len()
        invariant
            i <= resources.packages@.len(),
            failure_views(out@) == mismatches(fs@, resources@.packages, i as int, message@),
        decreases resources.packages.len() - i,
    {
        let p = &resources.packages[i];
        assert(resources@.packages[i as int] == p@);
        if runtime_npm_needs_install(p) {
            add_failure(
                &mut out,
                RuntimeFailure {
                    identity: packages::package_identity(fs, p),
                    spec: p.spec.clone(),
                    message: message.to_owned(),
                },
            );
        }
        i += 1;
    }
    out
}

/// Those of the first `n` packages that have no failure.
pub open spec fn unfailed(
    fs: Seq<EntryModel>,
    list: Seq<PackageModel>,
    n: int,
    failures: Seq<FailureModel>,
) -> Seq<PackageModel>
    decreases n,
{
    if n <= 0 {
        seq![]
    } else {
        let rest = unfailed(fs, list, n - 1, failures);
        if failure_slot(failures, packages::identity_of(fs, list[n - 1]), 0) is Some {
            rest
        } else {
            rest.push(list[n - 1])
        }
    }
}

/// Whether some failure is that of the entry `spec`.
pub open spec fn spec_failed(failures: Seq<FailureModel>, spec: Seq<char>) -> bool {
    exists|i: int| 0 <= i < failures.len() && (#[trigger] failures[i]).spec == spec
}

/// Those of the first `n` diagnostics whose entry has no failure.
pub open spec fn other_diagnostics(
    list: Seq<DiagnosticModel>,
    n: int,
    failures: Seq<FailureModel>,
) -> Seq<DiagnosticModel>
    decreases n,
{
    if n <= 0 {
        seq![]
    } else if spec_failed(failures, list[n - 1].spec) {
        other_diagnostics(list, n - 1, failures)
    } else {
        other_diagnostics(list, n - 1, failures).push(list[n - 1])
    }
}

/// Failures as diagnostics.
pub open spec fn as_diagnostics(failures: Seq<FailureModel>) -> Seq<DiagnosticModel> {
    Seq::new(
        failures.len(),
        |i: int|
            DiagnosticModel {
                spec: failures[i].spec,
                message: failures[i].message,
                blocks_update: true,
            },
    )
}

/// What is loaded where some packages failed: none of those, and a
/// diagnostic for each.
pub open spec fn without_failed(
    fs: Seq<EntryModel>,
    r: ResourcesModel,
    failures: Seq<FailureModel>,
) -> ResourcesModel {
    if failures.len() == 0 {
        r
    } else {
        ResourcesModel {
            packages: unfailed(fs, r.packages, r.packages.len() as int, failures),
            diagnostics: other_diagnostics(r.diagnostics, r.diagnostics.len() as int, failures)
                + as_diagnostics(failures),
        }
    }
}

fn is_spec_failed(failures: &Vec<RuntimeFailure>, spec: &str) -> (r: bool)
    ensures
        r == spec_failed(failure_views(failures@), spec@),
{
    let mut i: usize = 0;
    while i < failures.len()
        invariant
            i <= failures@.len(),
            forall|j: int|
                0 <= j < i ==> (#[trigger] failure_views(failures@)[j]).spec != spec@,
        decreases failures.len() - i,
    {
        assert(failure_views(failures@)[i as int] == failures@[i as int]@);
        if text::same(failures[i].spec.as_str(), spec) {
            return true;
        }
        i += 1;
    }
    false
}

fn reversed_packages(list: Vec<PackageRoot>) -> (out: Vec<PackageRoot>)
    ensures
        out@ == list@.reverse(),
{
    let ghost given = list@;
    let mut list = list;
    let mut out: Vec<PackageRoot> = Vec::new();
    while list.len() > 0
        invariant
            list@.len() + out@.len() == given.len(),
            list@ =~= given.take(list@.len() as int),
            forall|i: int| 0 <= i < out@.len() ==> #[trigger] out@[i] == given[given.len() - 1 - i],
        decreases list.len(),
    {
        match list.pop() {
            Some(p) => {
                out.push(p);
            },
            None => {},
        }
    }
    assert(out@ =~= given.reverse());
    out
}

fn reversed_diagnostics(list: Vec<PackageDiagnostic>) -> (out: Vec<PackageDiagnostic>)
    ensures
        out@ == list@.reverse(),
{
    let ghost given = list@;
    let mut list = list;
    let mut out: Vec<PackageDiagnostic> = Vec::new();
    while list.len() > 0
        invariant
            list@.len() + out@.len() == given.len(),
            list@ =~= given.take(list@.len() as int),
            forall|i: int| 0 <= i < out@.len() ==> #[trigger] out@[i] == given[given.len() - 1 - i],
        decreases list.len(),
    {
        match list.pop() {
            Some(p) => {
                out.push(p);
            },
            None => {},
        }
    }
    assert(out@ =~= given.reverse());
    out
}

fn keep_unfailed(fs: &FsTree, list: Vec<PackageRoot>, failures: &Vec<RuntimeFailure>) -> (out: Vec<
    PackageRoot,
>)
    ensures
        packages::package_views(out@) == unfailed(
            fs@,
            packages::package_views(list@),
            list@.len() as int,
            failure_views(failures@),
        ),
{
    let ghost all = packages::package_views(list@);
    let ghost given = list@;
    let mut rest = reversed_packages(list);
    let mut out: Vec<PackageRoot> = Vec::new();
    assert(packages::package_views(out@) =~= seq![]);
    let ghost mut done: int = 0;
    while rest.len() > 0
        invariant
            0 <= done,
            done + rest@.len() == given.len(),
            all == packages::package_views(given),
            rest@ =~= given.skip(done).reverse(),
            packages::package_views(out@) == unfailed(
                fs@,
                all,
                done,
                failure_views(failures@),
            ),
        decreases rest.len(),
    {
        let ghost before = rest@;
        match rest.pop() {
            Some(p) => {
                assert(before[before.len() - 1] == given[done]);
                assert(all[done] == p@);
                let identity = packages::package_identity(fs, &p);
                if find_slot(failures, identity.as_str()).is_none() {
                    let ghost kept = packages::package_views(out@);
                    let ghost added = p@;
                    out.push(p);
                    assert(packages::package_views(out@) =~= kept.push(added));
                }
                proof {
                    done = done + 1;
                }
            },
            None => {},
        }
    }
    out
}

fn keep_other_diagnostics(list: Vec<PackageDiagnostic>, failures: &Vec<RuntimeFailure>) -> (out: Vec<
    PackageDiagnostic,
>)
    ensures
        packages::diagnostic_views(out@) == other_diagnostics(
            packages::diagnostic_views(list@),
            list@.len() as int,
            failure_views(failures@),
        ),
{
    let ghost all = packages::diagnostic_views(list@);
    let ghost given = list@;
    let mut rest = reversed_diagnostics(list);
    let mut out: Vec<PackageDiagnostic> = Vec::new();
    assert(packages::diagnostic_views(out@) =~= seq![]);
    let ghost mut done: int = 0;
    while rest.len() > 0
        invariant
            0 <= done,
            done + rest@.len() == given.len(),
            all == packages::diagnostic_views(given),
            rest@ =~= given.skip(done).reverse(),
            packages::diagnostic_views(out@) == other_diagnostics(
                all,
                done,
                failure_views(failures@),
            ),
        decreases rest.len(),
    {
        let ghost before = rest@;
        match rest.pop() {
            Some(d) => {
                assert(before[before.len() - 1] == given[done]);
                assert(all[done] == d@);
                if !is_spec_failed(failures, d.spec.as_str()) {
                    let ghost kept = packages::diagnostic_views(out@);
                    let ghost added = d@;
                    out.push(d);
                    assert(packages::diagnostic_views(out@) =~= kept.push(added));
                }
                proof {
                    done = done + 1;
                }
            },
            None => {},
        }
    }
    out
}

/// Takes the packages that failed out of what is loaded, and says so.
pub fn apply_runtime_failures(
    fs: &FsTree,
    resources: PackageResources,
    failures: &Vec<RuntimeFailure>,
) -> (out: PackageResources)
    ensures
        out@ == without_failed(fs@, resources@, failure_views(failures@)),
{
    assert(failure_views(failures@).len() == failures@.len());
    if failures.len() == 0 {
        return resources;
    }
    let kept = keep_unfailed(fs, resources.packages, failures);
    let mut diagnostics = keep_other_diagnostics(resources.diagnostics, failures);
    let ghost base = packages::diagnostic_views(diagnostics@);
    let ghost more = as_diagnostics(failure_views(failures@));
    let mut i: usize = 0;
    while i < failures.len()
        invariant
            i <= failures@.len(),
            more == as_diagnostics(failure_views(failures@)),
            packages::diagnostic_views(diagnostics@) =~= base + more.take(i as int),
        decreases failures.len() - i,
    {
        let d = PackageDiagnostic {
            spec: failures[i].spec.clone(),
            message: failures[i].message.clone(),
            blocks_update: true,
        };
        let ghost before = packages::diagnostic_views(diagnostics@);
        let ghost added = d@;
        diagnostics.push(d);
        assert(packages::diagnostic_views(diagnostics@) =~= before.push(added));
        assert(added == more[i as int]);
        i += 1;
    }
    assert(more.take(i as int) =~= more);
    PackageResources { packages: kept, diagnostics }
}

/// What is loaded without a network: no package whose installed version does
/// not meet its configuration.
pub open spec fn offline_of(w: Workspace, include_project: bool) -> ResourcesModel {
    let found = configured(w, include_project, false, false);
    without_failed(
        w.fs@,
        found,
        mismatches(
            w.fs@,
            found.packages,
            found.packages.len() as int,
            "configured npm version is unavailable while offline"@,
        ),
    )
}

fn resolve_configured_packages_offline(w: &Workspace, include_project: bool) -> (out:
    PackageResources)
    ensures
        out@ == offline_of(*w, include_project),
{
    let found = discover_configured_packages(w, include_project, false, false);
    let failures = runtime_npm_mismatch_failures(
        w.fs,
        &found,
        "configured npm version is unavailable while offline",
    );
    apply_runtime_failures(w.fs, found, &failures)
}

/// What is loaded without a network, the project's packages among it.
pub fn resolve_offline_from_settings(w: &Workspace) -> (out: PackageResources)
    ensures
        out@ == offline_of(*w, true),
{
    resolve_configured_packages_offline(w, true)
}

/// What is loaded without a network where the project takes no part.
pub fn resolve_offline_from_global_settings(w: &Workspace) -> (out: PackageResources)
    ensures
        out@ == offline_of(*w, false),
{
    resolve_configured_packages_offline(w, false)
}

/// The npm root that a package is updated in; `None` where it is updated in
/// its own directory; or the message of a refusal. A package of a global
/// root moves to a managed one, and only with proven npm provenance.
pub open spec fn store_root_of(p: PackageModel, places: PlacesModel, trusted: bool) -> Result<
    Option<PathModel>,
    Seq<char>,
> {
    if p.npm_install_root is Some {
        Ok(p.npm_install_root)
    } else if p.legacy_npm_root is None {
        Ok(None)
    } else if p.source !is Npm {
        Err("refusing legacy npm migration without verified npm provenance"@)
    } else if p.scope == ResolveScope::Project && !trusted {
        Err("refusing to migrate a legacy npm package for an untrusted project"@)
    } else {
        match discovery::managed_root(places, p.scope, ".pi/npm"@, "npm"@) {
            Err(message) => Err(message),
            Ok(root) => if !root.absolute() || paths::name_of(root) != Some("npm"@) {
                Err(
                    "refusing legacy npm migration outside a managed npm root: "@
                        + paths::path_text(root),
                )
            } else {
                Ok(Some(root))
            },
        }
    }
}

/// The npm root that a package is updated in; `None` where it is updated in
/// its own directory; or the message of a refusal.
pub fn npm_store_root_for_update(p: &PackageRoot, places: &Places, project_trusted: bool) -> (r:
    Result<Option<FsPath>, String>)
    ensures
        (match r {
            Ok(root) => Ok(paths::opt_path(root)),
            Err(m) => Err(m@),
        }) == store_root_of(p@, places@, project_trusted),
{
    match &p.npm_install_root {
        Some(root) => {
            return Ok(Some(root.copy()));
        },
        None => {},
    }
    if p.legacy_npm_root.is_none() {
        return Ok(None);
    }
    match &p.source {
        PackageSource::Npm { .. } => {},
        _ => {
            return Err(
                "refusing legacy npm migration without verified npm provenance".to_owned(),
            );
        },
    }
    if p.scope == ResolveScope::Project && !project_trusted {
        return Err(
            "refusing to migrate a legacy npm package for an untrusted project".to_owned(),
        );
    }
    match discovery::managed_npm_root_for_scope(places, p.scope) {
        Ok(root) => {
            if !root.is_absolute() || !root.is_named("npm") {
                let shown = root.to_text();
                return Err(
                    text::cat(
                        "refusing legacy npm migration outside a managed npm root: ",
                        shown.as_str(),
                    ),
                );
            }
            Ok(Some(root))
        },
        Err(message) => Err(message),
    }
}

/// One npm package to install in a root.
pub struct NpmInstall {
    pub name: String,
    pub spec: String,
    pub identity: String,
}

/// The packages to install in one npm root.
pub struct NpmRootPlan {
    pub root: FsPath,
    pub installs: Vec<NpmInstall>,
}

/// One npm package to install in its own directory.
pub struct StandaloneInstall {
    pub root: FsPath,
    pub display_name: String,
    pub name: String,
    pub spec: String,
    pub identity: String,
}

/// One git package to check out.
pub struct GitInstall {
    pub user_scope: bool,
    pub spec: String,
    pub identity: String,
}

/// What must be installed before packages are loaded.
pub struct RuntimePlan {
    /// In the order of the roots.
    pub npm_roots: Vec<NpmRootPlan>,
    pub standalone: Vec<StandaloneInstall>,
    pub missing_git: Vec<GitInstall>,
    pub failures: Vec<RuntimeFailure>,
}

/// The model of `NpmInstall`.
#[verifier::ext_equal]
pub struct InstallModel {
    pub name: Seq<char>,
    pub spec: Seq<char>,
    pub identity: Seq<char>,
}

/// The model of `NpmRootPlan`.
#[verifier::ext_equal]
pub struct RootModel {
    pub root: PathModel,
    pub installs: Seq<InstallModel>,
}

/// The model of `StandaloneInstall`.
#[verifier::ext_equal]
pub struct StandaloneModel {
    pub root: PathModel,
    pub display_name: Seq<char>,
    pub name: Seq<char>,
    pub spec: Seq<char>,
    pub identity: Seq<char>,
}

/// The model of `GitInstall`.
#[verifier::ext_equal]
pub struct GitInstallModel {
    pub user_scope: bool,
    pub spec: Seq<char>,
    pub identity: Seq<char>,
}

/// The model of `RuntimePlan`.
#[verifier::ext_equal]
pub struct PlanModel {
    pub npm_roots: Seq<RootModel>,
    pub standalone: Seq<StandaloneModel>,
    pub missing_git: Seq<GitInstallModel>,
    pub failures: Seq<FailureModel>,
}

impl View for NpmInstall {
    type V = InstallModel;

    open spec fn view(&self) -> InstallModel {
        InstallModel { name: self.name@, spec: self.spec@, identity: self.identity@ }
    }
}

/// The views of a list of installations.
pub open spec fn install_views(v: Seq<NpmInstall>) -> Seq<InstallModel> {
    Seq::new(v.len(), |i: int| v[i]@)
}

impl View for NpmRootPlan {
    type V = RootModel;

    open spec fn view(&self) -> RootModel {
        RootModel { root: self.root@, installs: install_views(self.installs@) }
    }
}

/// The views of a list of roots.
pub open spec fn root_views(v: Seq<NpmRootPlan>) -> Seq<RootModel> {
    Seq::new(v.len(), |i: int| v[i]@)
}

impl View for StandaloneInstall {
    type V = StandaloneModel;

    open spec fn view(&self) -> StandaloneModel {
        StandaloneModel {
            root: self.root@,
            display_name: self.display_name@,
            name: self.name@,
            spec: self.spec@,
            identity: self.identity@,
        }
    }
}

/// The views of a list of installations in their own directories.
pub open spec fn standalone_views(v: Seq<StandaloneInstall>) -> Seq<StandaloneModel> {
    Seq::new(v.len(), |i: int| v[i]@)
}

impl View for GitInstall {
    type V = GitInstallModel;

    open spec fn view(&self) -> GitInstallModel {
        GitInstallModel {
            user_scope: self.user_scope,
            spec: self.spec@,
            identity: self.identity@,
        }
    }
}

/// The views of a list of checkouts.
pub open spec fn git_views(v: Seq<GitInstall>) -> Seq<GitInstallModel> {
    Seq::new(v.len(), |i: int| v[i]@)
}

impl View for RuntimePlan {
    type V = PlanModel;

    open spec fn view(&self) -> PlanModel {
        PlanModel {
            npm_roots: root_views(self.npm_roots@),
            standalone: standalone_views(self.standalone@),
            missing_git: git_views(self.missing_git@),
            failures: failure_views(self.failures@),
        }
    }
}

/// The first position, from `i` on, whose root does not come before `root`.
pub open spec fn root_slot(roots: Seq<RootModel>, root: PathModel, i: int) -> int
    decreases roots.len() - i,
{
    if 0 <= i < roots.len() && paths::path_before(roots[i].root, root) {
        root_slot(roots, root, i + 1)
    } else {
        i
    }
}

/// The roots with one more package to install in `root`.
pub open spec fn with_install(
    roots: Seq<RootModel>,
    root: PathModel,
    install: InstallModel,
) -> Seq<RootModel> {
    let k = root_slot(roots, root, 0);
    if k < roots.len() && paths::same_path(roots[k].root, root) {
        roots.update(
            k,
            RootModel { installs: roots[k].installs.push(install), ..roots[k] },
        )
    } else {
        roots.insert(k, RootModel { root, installs: seq![install] })
    }
}

/// Adds a package to install in `root`.
pub fn add_install(roots: &mut Vec<NpmRootPlan>, root: FsPath, install: NpmInstall)
    ensures
        root_views(final(roots)@) == with_install(root_views(old(roots)@), root@, install@),
{
    let ghost views = root_views(roots@);
    let ghost added = install@;
    let ghost place = root@;
    let mut k: usize = 0;
    while k < roots.len() && roots[k].root.comes_before(&root)
        invariant
            k <= roots@.len(),
            views == root_views(roots@),
            roots@ == old(roots)@,
            place == root@,
            root_slot(views, place, 0) == root_slot(views, place, k as int),
        decreases roots.len() - k,
    {
        assert(views[k as int] == roots@[k as int]@);
        k += 1;
    }
    assert(k < roots@.len() ==> views[k as int] == roots@[k as int]@);
    if k < roots.len() && roots[k].root.same(&root) {
        let mut entry = roots.remove(k);
        let ghost before = entry@;
        entry.installs.push(install);
        assert(entry@.installs =~= before.installs.push(added));
        let ghost entry_view = entry@;
        roots.insert(k, entry);
        assert(root_views(roots@) =~= views.update(k as int, entry_view));
    } else {
        let mut installs: Vec<NpmInstall> = Vec::new();
        installs.push(install);
        let entry = NpmRootPlan { root, installs };
        assert(entry@.installs =~= seq![added]);
        let ghost entry_view = entry@;
        roots.insert(k, entry);
        assert(root_views(roots@) =~= views.insert(k as int, entry_view));
    }
}

/// A plan after one more package.
pub open spec fn after_planning(
    fs: Seq<EntryModel>,
    places: PlacesModel,
    trusted: bool,
    p: PackageModel,
    plan: PlanModel,
) -> PlanModel {
    let identity = packages::identity_of(fs, p);
    if needs_install(p) {
        let install = InstallModel { name: p.source->name, spec: p.source->spec, identity };
        match store_root_of(p, places, trusted) {
            Ok(Some(root)) => PlanModel {
                npm_roots: with_install(plan.npm_roots, root, install),
                ..plan
            },
            Ok(None) => PlanModel {
                standalone: plan.standalone.push(
                    StandaloneModel {
                        root: p.root,
                        display_name: p.name,
                        name: install.name,
                        spec: install.spec,
                        identity,
                    },
                ),
                ..plan
            },
            Err(message) => PlanModel {
                failures: with_failure(
                    plan.failures,
                    FailureModel { identity, spec: p.spec, message },
                ),
                ..plan
            },
        }
    } else if p.missing_install && p.source is Git {
        PlanModel {
            missing_git: plan.missing_git.push(
                GitInstallModel {
                    user_scope: p.scope == ResolveScope::User,
                    spec: p.spec,
                    identity,
                },
            ),
            ..plan
        }
    } else {
        plan
    }
}

/// The plan for the first `n` packages.
pub open spec fn plan_of(
    fs: Seq<EntryModel>,
    places: PlacesModel,
    trusted: bool,
    list: Seq<PackageModel>,
    n: int,
) -> PlanModel
    decreases n,
{
    if n <= 0 {
        PlanModel {
            npm_roots: seq![],
            standalone: seq![],
            missing_git: seq![],
            failures: seq![],
        }
    } else {
        after_planning(fs, places, trusted, list[n - 1], plan_of(fs, places, trusted, list, n - 1))
    }
}

/// Whether nothing is to be done.
pub open spec fn plan_is_empty(plan: PlanModel) -> bool {
    plan.npm_roots.len() == 0 && plan.standalone.len() == 0 && plan.missing_git.len() == 0
        && plan.failures.len() == 0
}

fn plan_package(fs: &FsTree, places: &Places, trusted: bool, p: &PackageRoot, plan: &mut RuntimePlan)
    ensures
        final(plan)@ == after_planning(fs@, places@, trusted, p@, old(plan)@),
{
    if runtime_npm_needs_install(p) {
        let identity = packages::package_identity(fs, p);
        match &p.source {
            PackageSource::Npm { name, spec, .. } => {
                match npm_store_root_for_update(p, places, trusted) {
                    Ok(Some(root)) => {
                        add_install(
                            &mut plan.npm_roots,
                            root,
                            NpmInstall { name: name.clone(), spec: spec.clone(), identity },
                        );
                    },
                    Ok(None) => {
                        let install = StandaloneInstall {
                            root: p.root.copy(),
                            display_name: p.name.clone(),
                            name: name.clone(),
                            spec: spec.clone(),
                            identity,
                        };
                        let ghost added = install@;
                        plan.standalone.push(install);
                        assert(plan@.standalone =~= old(plan)@.standalone.push(added));
                    },
                    Err(message) => {
                        add_failure(
                            &mut plan.failures,
                            RuntimeFailure { identity, spec: p.spec.clone(), message },
                        );
                    },
                }
            },
            _ => {},
        }
        return;
    }
    let is_git = match &p.source {
        PackageSource::Git => true,
        _ => false,
    };
    if p.missing_install && is_git {
        let install = GitInstall {
            user_scope: p.scope == ResolveScope::User,
            spec: p.spec.clone(),
            identity: packages::package_identity(fs, p),
        };
        let ghost added = install@;
        plan.missing_git.push(install);
        assert(plan@.missing_git =~= old(plan)@.missing_git.push(added));
    }
}

/// What must be installed before `planned` is loaded.
pub fn plan_runtime(fs: &FsTree, places: &Places, trusted: bool, planned: &PackageResources) -> (plan:
    RuntimePlan)
    ensures
        plan@ == plan_of(
            fs@,
            places@,
            trusted,
            planned@.packages,
            planned@.packages.len() as int,
        ),
{
    let mut plan = RuntimePlan {
        npm_roots: Vec::new(),
        standalone: Vec::new(),
        missing_git: Vec::new(),
        failures: Vec::new(),
    };
    assert(plan@.npm_roots =~= seq![] && plan@.standalone =~= seq![]);
    assert(plan@.missing_git =~= seq![] && plan@.failures =~= seq![]);
    let mut i: usize = 0;
    while i < planned.packages.len()
        invariant
            i <= planned.packages@.len(),
            plan@ == plan_of(fs@, places@, trusted, planned@.packages, i as int),
        decreases planned.packages.len() - i,
    {
        assert(planned@.packages[i as int] == planned.packages@[i as int]@);
        plan_package(fs, places, trusted, &planned.packages[i], &mut plan);
        i += 1;
    }
    plan
}

/// The next step of a resolution for the runtime.
pub enum RuntimeStep {
    /// Nothing has to be installed: this is loaded.
    Ready(PackageResources),
    /// This has to be installed first.
    Install(RuntimePlan),
}

/// What has to be installed before packages are loaded, or, where nothing
/// has, what is loaded.
pub open spec fn runtime_step(w: Workspace, include_project: bool) -> (ResourcesModel, PlanModel) {
    let planned = configured(w, include_project, true, true);
    (
        planned,
        plan_of(
            w.fs@,
            w.places@,
            include_project,
            planned.packages,
            planned.packages.len() as int,
        ),
    )
}

fn resolve_configured_packages_for_runtime(w: &Workspace, include_project: bool) -> (r: RuntimeStep)
    ensures
        match r {
            RuntimeStep::Ready(found) => {
                &&& plan_is_empty(runtime_step(*w, include_project).1)
                &&& found@ == runtime_step(*w, include_project).0
            },
            RuntimeStep::Install(plan) => {
                &&& !plan_is_empty(runtime_step(*w, include_project).1)
                &&& plan@ == runtime_step(*w, include_project).1
            },
        },
{
    let planned = discover_configured_packages(w, include_project, true, true);
    let plan = plan_runtime(w.fs, w.places, include_project, &planned);
    assert(plan@.npm_roots.len() == plan.npm_roots@.len());
    assert(plan@.standalone.len() == plan.standalone@.len());
    assert(plan@.missing_git.len() == plan.missing_git@.len());
    assert(plan@.failures.len() == plan.failures@.len());
    if plan.npm_roots.len() == 0 && plan.standalone.len() == 0 && plan.missing_git.len() == 0
        && plan.failures.len() == 0 {
        RuntimeStep::Ready(planned)
    } else {
        RuntimeStep::Install(plan)
    }
}

/// The first step of loading packages, the project's among them. The caller
/// has established that the project is trusted.
pub fn resolve_from_settings(w: &Workspace) -> (r: RuntimeStep)
    ensures
        match r {
            RuntimeStep::Ready(found) => plan_is_empty(runtime_step(*w, true).1) && found@
                == runtime_step(*w, true).0,
            RuntimeStep::Install(plan) => !plan_is_empty(runtime_step(*w, true).1) && plan@
                == runtime_step(*w, true).1,
        },
{
    resolve_configured_packages_for_runtime(w, true)
}

/// The first step of loading the user's packages; nothing of the project is
/// read or touched.
pub fn resolve_from_global_settings(w: &Workspace) -> (r: RuntimeStep)
    ensures
        match r {
            RuntimeStep::Ready(found) => plan_is_empty(runtime_step(*w, false).1) && found@
                == runtime_step(*w, false).0,
            RuntimeStep::Install(plan) => !plan_is_empty(runtime_step(*w, false).1) && plan@
                == runtime_step(*w, false).1,
        },
{
    resolve_configured_packages_for_runtime(w, false)
}

/// How an installation went: nothing, or the message of its failure.
pub type Outcome = Option<String>;

/// The message of the `i`th outcome; an outcome that is missing is a
/// success.
pub open spec fn outcome_at(outcomes: Seq<Outcome>, i: int) -> Option<Seq<char>> {
    if 0 <= i < outcomes.len() {
        text::opt_text(outcomes[i])
    } else {
        None
    }
}

fn get_outcome(outcomes: &[Outcome], i: usize) -> (r: Option<String>)
    ensures
        text::opt_text(r) == outcome_at(outcomes@, i as int),
{
    if i < outcomes.len() {
        match &outcomes[i] {
            Some(m) => Some(m.clone()),
            None => None,
        }
    } else {
        None
    }
}

/// The failures after the first `n` installations in their own directories.
pub open spec fn after_standalone(
    list: Seq<StandaloneModel>,
    outcomes: Seq<Outcome>,
    n: int,
    failures: Seq<FailureModel>,
) -> Seq<FailureModel>
    decreases n,
{
    if n <= 0 {
        failures
    } else {
        let rest = after_standalone(list, outcomes, n - 1, failures);
        match outcome_at(outcomes, n - 1) {
            Some(error) => with_failure(
                rest,
                FailureModel {
                    identity: list[n - 1].identity,
                    spec: list[n - 1].spec,
                    message: "could not restore npm package "@ + list[n - 1].display_name + ": "@
                        + error,
                },
            ),
            None => rest,
        }
    }
}

/// The failures where the first `n` installations of a root failed.
pub open spec fn after_installs(
    list: Seq<InstallModel>,
    message: Seq<char>,
    n: int,
    failures: Seq<FailureModel>,
) -> Seq<FailureModel>
    decreases n,
{
    if n <= 0 {
        failures
    } else {
        with_failure(
            after_installs(list, message, n - 1, failures),
            FailureModel { identity: list[n - 1].identity, spec: list[n - 1].spec, message },
        )
    }
}

/// The failures after the first `n` roots.
pub open spec fn after_roots(
    list: Seq<RootModel>,
    outcomes: Seq<Outcome>,
    n: int,
    failures: Seq<FailureModel>,
) -> Seq<FailureModel>
    decreases n,
{
    if n <= 0 {
        failures
    } else {
        let rest = after_roots(list, outcomes, n - 1, failures);
        match outcome_at(outcomes, n - 1) {
            Some(error) => after_installs(
                list[n - 1].installs,
                "could not restore npm package: "@ + error,
                list[n - 1].installs.len() as int,
                rest,
            ),
            None => rest,
        }
    }
}

/// The failures after the first `n` checkouts.
pub open spec fn after_git(
    list: Seq<GitInstallModel>,
    outcomes: Seq<Outcome>,
    n: int,
    failures: Seq<FailureModel>,
) -> Seq<FailureModel>
    decreases n,
{
    if n <= 0 {
        failures
    } else {
        let rest = after_git(list, outcomes, n - 1, failures);
        match outcome_at(outcomes, n - 1) {
            Some(error) => with_failure(
                rest,
                FailureModel {
                    identity: list[n - 1].identity,
                    spec: list[n - 1].spec,
                    message: "could not restore git package: "@ + error,
                },
            ),
            None => rest,
        }
    }
}

/// How the installations of a plan went.
pub struct RuntimeOutcomes {
    pub standalone: Vec<Outcome>,
    pub npm_roots: Vec<Outcome>,
    pub missing_git: Vec<Outcome>,
}

/// The failures of a plan once it was carried out.
pub open spec fn failures_after(plan: PlanModel, outcomes: RuntimeOutcomes) -> Seq<FailureModel> {
    after_git(
        plan.missing_git,
        outcomes.missing_git@,
        plan.missing_git.len() as int,
        after_roots(
            plan.npm_roots,
            outcomes.npm_roots@,
            plan.npm_roots.len() as int,
            after_standalone(
                plan.standalone,
                outcomes.standalone@,
                plan.standalone.len() as int,
                plan.failures,
            ),
        ),
    )
}

fn fail_installs(installs: &Vec<NpmInstall>, message: &str, failures: &mut Vec<RuntimeFailure>)
    ensures
        failure_views(final(failures)@) == after_installs(
            install_views(installs@),
            message@,
            installs@.len() as int,
            failure_views(old(failures)@),
        ),
{
    let mut i: usize = 0;
    while i < installs.len()
        invariant
            i <= installs@.len(),
            failure_views(failures@) == after_installs(
                install_views(installs@),
                message@,
                i as int,
                failure_views(old(failures)@),
            ),
        decreases installs.len() - i,
    {
        assert(install_views(installs@)[i as int] == installs@[i as int]@);
        add_failure(
            failures,
            RuntimeFailure {
                identity: installs[i].identity.clone(),
                spec: installs[i].spec.clone(),
                message: message.to_owned(),
            },
        );
        i += 1;
    }
}

/// The failures of a plan once it was carried out.
pub fn collect_failures(plan: RuntimePlan, outcomes: &RuntimeOutcomes) -> (out: Vec<RuntimeFailure>)
    ensures
        failure_views(out@) == failures_after(plan@, *outcomes),
{
    let ghost model = plan@;
    let mut out = plan.failures;
    let standalone = plan.standalone;
    let roots = plan.npm_roots;
    let git = plan.missing_git;
    let mut i: usize = 0;
    while i < standalone.len()
        invariant
            i <= standalone@.len(),
            model.standalone == standalone_views(standalone@),
            failure_views(out@) == after_standalone(
                model.standalone,
                outcomes.standalone@,
                i as int,
                model.failures,
            ),
        decreases standalone.len() - i,
    {
        let s = &standalone[i];
        assert(model.standalone[i as int] == s@);
        match get_outcome(outcomes.standalone.as_slice(), i) {
            Some(error) => {
                add_failure(
                    &mut out,
                    RuntimeFailure {
                        identity: s.identity.clone(),
                        spec: s.spec.clone(),
                        message: text::cat4(
                            "could not restore npm package ",
                            s.display_name.as_str(),
                            ": ",
                            error.as_str(),
                        ),
                    },
                );
            },
            None => {},
        }
        i += 1;
    }
    let ghost first = failure_views(out@);
    let mut j: usize = 0;
    while j < roots.len()
        invariant
            j <= roots@.len(),
            model.npm_roots == root_views(roots@),
            failure_views(out@) == after_roots(
                model.npm_roots,
                outcomes.npm_roots@,
                j as int,
                first,
            ),
        decreases roots.len() - j,
    {
        assert(model.npm_roots[j as int] == roots@[j as int]@);
        match get_outcome(outcomes.npm_roots.as_slice(), j) {
            Some(error) => {
                let message = text::cat("could not restore npm package: ", error.as_str());
                assert(model.npm_roots[j as int].installs.len() == roots@[j as int].installs@.len());
                fail_installs(&roots[j].installs, message.as_str(), &mut out);
            },
            None => {},
        }
        j += 1;
    }
    let ghost second = failure_views(out@);
    let mut k: usize = 0;
    while k < git.len()
        invariant
            k <= git@.len(),
            model.missing_git == git_views(git@),
            failure_views(out@) == after_git(
                model.missing_git,
                outcomes.missing_git@,
                k as int,
                second,
            ),
        decreases git.len() - k,
    {
        let g = &git[k];
        assert(model.missing_git[k as int] == g@);
        match get_outcome(outcomes.missing_git.as_slice(), k) {
            Some(error) => {
                add_failure(
                    &mut out,
                    RuntimeFailure {
                        identity: g.identity.clone(),
                        spec: g.spec.clone(),
                        message: text::cat("could not restore git package: ", error.as_str()),
                    },
                );
            },
            None => {},
        }
        k += 1;
    }
    out
}

/// The failures where the first `n` roots are refused for one reason.
pub open spec fn refused_roots(
    list: Seq<RootModel>,
    message: Seq<char>,
    n: int,
    failures: Seq<FailureModel>,
) -> Seq<FailureModel>
    decreases n,
{
    if n <= 0 {
        failures
    } else {
        after_installs(
            list[n - 1].installs,
            message,
            list[n - 1].installs.len() as int,
            refused_roots(list, message, n - 1, failures),
        )
    }
}

/// The failures where the first `n` installations in their own directories
/// are refused for one reason.
pub open spec fn refused_standalone(
    list: Seq<StandaloneModel>,
    message: Seq<char>,
    n: int,
    failures: Seq<FailureModel>,
) -> Seq<FailureModel>
    decreases n,
{
    if n <= 0 {
        failures
    } else {
        with_failure(
            refused_standalone(list, message, n - 1, failures),
            FailureModel { identity: list[n - 1].identity, spec: list[n - 1].spec, message },
        )
    }
}

/// The failures where the first `n` checkouts are refused for one reason.
pub open spec fn refused_git(
    list: Seq<GitInstallModel>,
    message: Seq<char>,
    n: int,
    failures: Seq<FailureModel>,
) -> Seq<FailureModel>
    decreases n,
{
    if n <= 0 {
        failures
    } else {
        with_failure(
            refused_git(list, message, n - 1, failures),
            FailureModel { identity: list[n - 1].identity, spec: list[n - 1].spec, message },
        )
    }
}

/// The failures of a plan that is refused as a whole.
pub open spec fn refused_plan(plan: PlanModel, message: Seq<char>) -> Seq<FailureModel> {
    refused_git(
        plan.missing_git,
        message,
        plan.missing_git.len() as int,
        refused_standalone(
            plan.standalone,
            message,
            plan.standalone.len() as int,
            refused_roots(plan.npm_roots, message, plan.npm_roots.len() as int, plan.failures),
        ),
    )
}

/// The failures of a plan that cannot be carried out because there is no
/// package manager to carry it out with: every installation fails for that
/// reason.
pub fn refuse_plan(plan: RuntimePlan, message: &str) -> (out: Vec<RuntimeFailure>)
    ensures
        failure_views(out@) == refused_plan(plan@, message@),
{
    let ghost model = plan@;
    let mut out = plan.failures;
    let standalone = plan.standalone;
    let roots = plan.npm_roots;
    let git = plan.missing_git;
    let mut j: usize = 0;
    while j < roots.len()
        invariant
            j <= roots@.len(),
            model.npm_roots == root_views(roots@),
            failure_views(out@) == refused_roots(
                model.npm_roots,
                message@,
                j as int,
                model.failures,
            ),
        decreases roots.len() - j,
    {
        assert(model.npm_roots[j as int] == roots@[j as int]@);
        assert(model.npm_roots[j as int].installs.len() == roots@[j as int].installs@.len());
        fail_installs(&roots[j].installs, message, &mut out);
        j += 1;
    }
    let ghost first = failure_views(out@);
    let mut i: usize = 0;
    while i < standalone.len()
        invariant
            i <= standalone@.len(),
            model.standalone == standalone_views(standalone@),
            failure_views(out@) == refused_standalone(
                model.standalone,
                message@,
                i as int,
                first,
            ),
        decreases standalone.len() - i,
    {
        assert(model.standalone[i as int] == standalone@[i as int]@);
        add_failure(
            &mut out,
            RuntimeFailure {
                identity: standalone[i].identity.clone(),
                spec: standalone[i].spec.clone(),
                message: message.to_owned(),
            },
        );
        i += 1;
    }
    let ghost second = failure_views(out@);
    let mut k: usize = 0;
    while k < git.len()
        invariant
            k <= git@.len(),
            model.missing_git == git_views(git@),
            failure_views(out@) == refused_git(model.missing_git, message@, k as int, second),
        decreases git.len() - k,
    {
        assert(model.missing_git[k as int] == git@[k as int]@);
        add_failure(
            &mut out,
            RuntimeFailure {
                identity: git[k].identity.clone(),
                spec: git[k].spec.clone(),
                message: message.to_owned(),
            },
        );
        k += 1;
    }
    out
}

/// What is loaded after the installations: no package that failed, and none
/// whose version still does not meet its configuration.
pub open spec fn after_install(
    w: Workspace,
    include_project: bool,
    failures: Seq<FailureModel>,
) -> ResourcesModel {
    let found = configured(w, include_project, false, true);
    let more = mismatches(
        w.fs@,
        found.packages,
        found.packages.len() as int,
        "package manager completed but the installed npm version still does not satisfy settings"@,
    );
    without_failed(w.fs@, found, with_failures(failures, more, more.len() as int))
}

fn add_failures(failures: Vec<RuntimeFailure>, more: &Vec<RuntimeFailure>) -> (all: Vec<
    RuntimeFailure,
>)
    ensures
        failure_views(all@) == with_failures(
            failure_views(failures@),
            failure_views(more@),
            failure_views(more@).len() as int,
        ),
{
    let mut all = failures;
    let ghost views = failure_views(more@);
    let ghost given = failure_views(all@);
    let mut i: usize = 0;
    while i < more.len()
        invariant
            i <= more@.len(),
            views == failure_views(more@),
            failure_views(all@) == with_failures(given, views, i as int),
        decreases more.len() - i,
    {
        assert(views[i as int] == more@[i as int]@);
        add_failure(
            &mut all,
            RuntimeFailure {
                identity: more[i].identity.clone(),
                spec: more[i].spec.clone(),
                message: more[i].message.clone(),
            },
        );
        i += 1;
    }
    assert(views.len() == more@.len());
    all
}

/// What is loaded after the installations of a plan: `w` is the workspace as
/// they left it, and `failures` are those of `collect_failures`.
pub fn resolve_after_install(
    w: &Workspace,
    include_project: bool,
    failures: Vec<RuntimeFailure>,
) -> (out: PackageResources)
    ensures
        out@ == after_install(*w, include_project, failure_views(failures@)),
{
    let found = discover_configured_packages(w, include_project, false, true);
    let more = runtime_npm_mismatch_failures(
        w.fs,
        &found,
        "package manager completed but the installed npm version still does not satisfy settings",
    );
    let all = add_failures(failures, &more);
    apply_runtime_failures(w.fs, found, &all)
}

proof fn lemma_unfailed(
    fs: Seq<EntryModel>,
    list: Seq<PackageModel>,
    n: int,
    failures: Seq<FailureModel>,
    i: int,
)
    requires
        0 <= n <= list.len(),
        0 <= i < unfailed(fs, list, n, failures).len(),
    ensures
        failure_slot(failures, packages::identity_of(fs, unfailed(fs, list, n, failures)[i]), 0)
            is None,
        list.contains(unfailed(fs, list, n, failures)[i]),
    decreases n,
{
    if n > 0 {
        let rest = unfailed(fs, list, n - 1, failures);
        if i < rest.len() {
            lemma_unfailed(fs, list, n - 1, failures, i);
        } else {
            assert(list.contains(list[n - 1]));
        }
    }
}

proof fn lemma_failure_kept(failures: Seq<FailureModel>, f: FailureModel, identity: Seq<char>)
    ensures
        failure_slot(with_failure(failures, f), f.identity, 0) is Some,
        failure_slot(failures, identity, 0) is Some ==> failure_slot(
            with_failure(failures, f),
            identity,
            0,
        ) is Some,
{
    lemma_slot_found(failures, f.identity, 0);
    lemma_slot_found(failures, identity, 0);
    let out = with_failure(failures, f);
    lemma_slot_found(out, f.identity, 0);
    lemma_slot_found(out, identity, 0);
    match failure_slot(failures, f.identity, 0) {
        Some(i) => {
            assert(out[i].identity == f.identity);
            if let Some(k) = failure_slot(failures, identity, 0) {
                assert(out[k].identity == identity);
            }
        },
        None => {
            assert(out[failures.len() as int].identity == f.identity);
            if let Some(k) = failure_slot(failures, identity, 0) {
                assert(out[k].identity == identity);
            }
        },
    }
}

proof fn lemma_slot_found(failures: Seq<FailureModel>, identity: Seq<char>, i: int)
    requires
        0 <= i,
    ensures
        match failure_slot(failures, identity, i) {
            Some(k) => i <= k < failures.len() && failures[k].identity == identity,
            None => forall|k: int|
                i <= k < failures.len() ==> (#[trigger] failures[k]).identity != identity,
        },
    decreases failures.len() - i,
{
    if i < failures.len() && failures[i].identity != identity {
        lemma_slot_found(failures, identity, i + 1);
    }
}

proof fn lemma_mismatch_listed(
    fs: Seq<EntryModel>,
    list: Seq<PackageModel>,
    n: int,
    message: Seq<char>,
    i: int,
)
    requires
        0 <= i < n <= list.len(),
        needs_install(list[i]),
    ensures
        failure_slot(mismatches(fs, list, n, message), packages::identity_of(fs, list[i]), 0)
            is Some,
    decreases n,
{
    let rest = mismatches(fs, list, n - 1, message);
    let p = list[n - 1];
    let f = FailureModel {
        identity: packages::identity_of(fs, p),
        spec: p.spec,
        message,
    };
    lemma_failure_kept(rest, f, packages::identity_of(fs, list[i]));
    if i < n - 1 {
        lemma_mismatch_listed(fs, list, n - 1, message, i);
    }
}

/// Without a network no package is loaded whose installed version is known
/// not to meet what is configured: stale code is withheld.
pub proof fn lemma_offline_withholds_stale(w: Workspace, include_project: bool, i: int)
    requires
        0 <= i < offline_of(w, include_project).packages.len(),
    ensures
        !needs_install(offline_of(w, include_project).packages[i]),
        configured(w, include_project, false, false).packages.contains(
            offline_of(w, include_project).packages[i],
        ),
{
    let found = configured(w, include_project, false, false);
    let message = "configured npm version is unavailable while offline"@;
    let n = found.packages.len() as int;
    let failures = mismatches(w.fs@, found.packages, n, message);
    let out = offline_of(w, include_project).packages;
    if failures.len() > 0 {
        lemma_unfailed(w.fs@, found.packages, n, failures, i);
    } else {
        assert(found.packages.contains(out[i]));
    }
    let k = choose|k: int| 0 <= k < found.packages.len() && found.packages[k] == out[i];
    if needs_install(out[i]) {
        lemma_mismatch_listed(w.fs@, found.packages, n, message, k);
        lemma_slot_found(failures, packages::identity_of(w.fs@, out[i]), 0);
    }
}

proof fn lemma_root_planned(roots: Seq<RootModel>, root: PathModel, i: int)
    requires
        0 <= i <= roots.len(),
    ensures
        i <= root_slot(roots, root, i) <= roots.len(),
    decreases roots.len() - i,
{
    if i < roots.len() && paths::path_before(roots[i].root, root) {
        lemma_root_planned(roots, root, i + 1);
    }
}

/// An empty plan leaves nothing that has to be installed.
proof fn lemma_empty_plan(
    fs: Seq<EntryModel>,
    places: PlacesModel,
    trusted: bool,
    list: Seq<PackageModel>,
    n: int,
    i: int,
)
    requires
        0 <= i < n <= list.len(),
        plan_is_empty(plan_of(fs, places, trusted, list, n)),
    ensures
        !needs_install(list[i]),
        !(list[i].missing_install && list[i].source is Git),
    decreases n,
{
    let before = plan_of(fs, places, trusted, list, n - 1);
    let p = list[n - 1];
    if needs_install(p) {
        if let Ok(Some(root)) = store_root_of(p, places, trusted) {
            let install = InstallModel {
                name: p.source->name,
                spec: p.source->spec,
                identity: packages::identity_of(fs, p),
            };
            lemma_root_planned(before.npm_roots, root, 0);
            assert(with_install(before.npm_roots, root, install).len() > 0);
        } else if let Err(message) = store_root_of(p, places, trusted) {
            let f = FailureModel {
                identity: packages::identity_of(fs, p),
                spec: p.spec,
                message,
            };
            lemma_slot_found(before.failures, f.identity, 0);
            assert(with_failure(before.failures, f).len() > 0);
        }
    }
    if i < n - 1 {
        lemma_empty_plan(fs, places, trusted, list, n - 1, i);
    }
}

/// Where nothing is to be installed, every package that is loaded is there,
/// and no installed version is known not to meet what is configured.
pub proof fn lemma_ready_is_whole(w: Workspace, include_project: bool, i: int)
    requires
        plan_is_empty(runtime_step(w, include_project).1),
        0 <= i < runtime_step(w, include_project).0.packages.len(),
    ensures
        !needs_install(runtime_step(w, include_project).0.packages[i]),
        !runtime_step(w, include_project).0.packages[i].missing_install,
{
    let list = configured(w, include_project, true, true).packages;
    lemma_empty_plan(w.fs@, w.places@, include_project, list, list.len() as int, i);
    discovery::lemma_missing_are_awaited(
        lookup_of(w, ResolveScope::Project, true, true),
        project_part(w, include_project),
        lookup_of(w, ResolveScope::User, true, true),
        discovery::user_entries_of(*w.user_settings),
        i,
    );
}

proof fn lemma_more_failures(
    failures: Seq<FailureModel>,
    more: Seq<FailureModel>,
    n: int,
    identity: Seq<char>,
    k: int,
)
    requires
        0 <= n <= more.len(),
        0 <= k < n,
        more[k].identity == identity,
    ensures
        failure_slot(with_failures(failures, more, n), identity, 0) is Some,
    decreases n,
{
    lemma_failure_kept(with_failures(failures, more, n - 1), more[n - 1], identity);
    if k < n - 1 {
        lemma_more_failures(failures, more, n - 1, identity, k);
    }
}

/// After the installations too: a package is loaded only where it is there,
/// and its version is not known to miss what is configured, whatever the
/// package manager reported.
pub proof fn lemma_installed_is_whole(
    w: Workspace,
    include_project: bool,
    failures: Seq<FailureModel>,
    i: int,
)
    requires
        0 <= i < after_install(w, include_project, failures).packages.len(),
    ensures
        !needs_install(after_install(w, include_project, failures).packages[i]),
        !after_install(w, include_project, failures).packages[i].missing_install,
        configured(w, include_project, false, true).packages.contains(
            after_install(w, include_project, failures).packages[i],
        ),
{
    let found = configured(w, include_project, false, true);
    let message =
        "package manager completed but the installed npm version still does not satisfy settings"@;
    let n = found.packages.len() as int;
    let more = mismatches(w.fs@, found.packages, n, message);
    let all = with_failures(failures, more, more.len() as int);
    let out = after_install(w, include_project, failures).packages;
    if all.len() > 0 {
        lemma_unfailed(w.fs@, found.packages, n, all, i);
    } else {
        assert(found.packages.contains(out[i]));
    }
    let k = choose|k: int| 0 <= k < found.packages.len() && found.packages[k] == out[i];
    discovery::lemma_missing_are_awaited(
        lookup_of(w, ResolveScope::Project, false, true),
        project_part(w, include_project),
        lookup_of(w, ResolveScope::User, false, true),
        discovery::user_entries_of(*w.user_settings),
        k,
    );
    if needs_install(out[i]) {
        let identity = packages::identity_of(w.fs@, out[i]);
        lemma_mismatch_listed(w.fs@, found.packages, n, message, k);
        lemma_slot_found(more, identity, 0);
        let j = failure_slot(more, identity, 0)->0;
        lemma_more_failures(failures, more, more.len() as int, identity, j);
        lemma_slot_found(all, identity, 0);
    }
}

/// A package that failed is not loaded, however the failure came about.
pub proof fn lemma_failed_is_withheld(
    fs: Seq<EntryModel>,
    r: ResourcesModel,
    failures: Seq<FailureModel>,
    i: int,
)
    requires
        0 <= i < without_failed(fs, r, failures).packages.len(),
    ensures
        forall|k: int|
            0 <= k < failures.len() ==> (#[trigger] failures[k]).identity != packages::identity_of(
                fs,
                without_failed(fs, r, failures).packages[i],
            ),
{
    if failures.len() > 0 {
        lemma_unfailed(fs, r.packages, r.packages.len() as int, failures, i);
        lemma_slot_found(
            failures,
            packages::identity_of(fs, without_failed(fs, r, failures).packages[i]),
            0,
        );
    }
}

/// Whether a package is among those that failed.
pub open spec fn failed(failures: Seq<FailureModel>, identity: Seq<char>) -> bool {
    exists|k: int| 0 <= k < failures.len() && (#[trigger] failures[k]).identity == identity
}

proof fn lemma_failure_added(failures: Seq<FailureModel>, f: FailureModel)
    ensures
        failed(with_failure(failures, f), f.identity),
        forall|id: Seq<char>| failed(failures, id) ==> failed(with_failure(failures, f), id),
{
    let after = with_failure(failures, f);
    lemma_slot_found(failures, f.identity, 0);
    match failure_slot(failures, f.identity, 0) {
        Some(i) => {
            assert(after[i].identity == f.identity);
        },
        None => {
            assert(after[failures.len() as int].identity == f.identity);
        },
    }
    assert forall|id: Seq<char>| failed(failures, id) implies failed(after, id) by {
        let k = choose|k: int| 0 <= k < failures.len() && (#[trigger] failures[k]).identity == id;
        assert(after[k].identity == id);
    }
}

proof fn lemma_installs_fail(
    list: Seq<InstallModel>,
    message: Seq<char>,
    n: int,
    failures: Seq<FailureModel>,
)
    requires
        n <= list.len(),
    ensures
        forall|i: int|
            0 <= i < n ==> failed(
                after_installs(list, message, n, failures),
                (#[trigger] list[i]).identity,
            ),
        forall|id: Seq<char>|
            failed(failures, id) ==> failed(after_installs(list, message, n, failures), id),
    decreases n,
{
    if n > 0 {
        lemma_installs_fail(list, message, n - 1, failures);
        lemma_failure_added(
            after_installs(list, message, n - 1, failures),
            FailureModel { identity: list[n - 1].identity, spec: list[n - 1].spec, message },
        );
    }
}

proof fn lemma_roots_refused(
    list: Seq<RootModel>,
    message: Seq<char>,
    n: int,
    failures: Seq<FailureModel>,
)
    requires
        n <= list.len(),
    ensures
        forall|i: int, j: int|
            0 <= i < n && 0 <= j < list[i].installs.len() ==> failed(
                refused_roots(list, message, n, failures),
                (#[trigger] list[i].installs[j]).identity,
            ),
        forall|id: Seq<char>|
            failed(failures, id) ==> failed(refused_roots(list, message, n, failures), id),
    decreases n,
{
    if n > 0 {
        lemma_roots_refused(list, message, n - 1, failures);
        lemma_installs_fail(
            list[n - 1].installs,
            message,
            list[n - 1].installs.len() as int,
            refused_roots(list, message, n - 1, failures),
        );
    }
}

proof fn lemma_standalone_refused(
    list: Seq<StandaloneModel>,
    message: Seq<char>,
    n: int,
    failures: Seq<FailureModel>,
)
    requires
        n <= list.len(),
    ensures
        forall|i: int|
            0 <= i < n ==> failed(
                refused_standalone(list, message, n, failures),
                (#[trigger] list[i]).identity,
            ),
        forall|id: Seq<char>|
            failed(failures, id) ==> failed(refused_standalone(list, message, n, failures), id),
    decreases n,
{
    if n > 0 {
        lemma_standalone_refused(list, message, n - 1, failures);
        lemma_failure_added(
            refused_standalone(list, message, n - 1, failures),
            FailureModel { identity: list[n - 1].identity, spec: list[n - 1].spec, message },
        );
    }
}

proof fn lemma_git_refused(
    list: Seq<GitInstallModel>,
    message: Seq<char>,
    n: int,
    failures: Seq<FailureModel>,
)
    requires
        n <= list.len(),
    ensures
        forall|i: int|
            0 <= i < n ==> failed(
                refused_git(list, message, n, failures),
                (#[trigger] list[i]).identity,
            ),
        forall|id: Seq<char>|
            failed(failures, id) ==> failed(refused_git(list, message, n, failures), id),
    decreases n,
{
    if n > 0 {
        lemma_git_refused(list, message, n - 1, failures);
        lemma_failure_added(
            refused_git(list, message, n - 1, failures),
            FailureModel { identity: list[n - 1].identity, spec: list[n - 1].spec, message },
        );
    }
}

/// A plan that is refused fails closed: every package that it was to install
/// is among the failures, and so, as no package that failed is loaded, none
/// of them is.
pub proof fn lemma_refused_plan_fails_all(plan: PlanModel, message: Seq<char>)
    ensures
        forall|i: int, j: int|
            0 <= i < plan.npm_roots.len() && 0 <= j < plan.npm_roots[i].installs.len() ==> failed(
                refused_plan(plan, message),
                (#[trigger] plan.npm_roots[i].installs[j]).identity,
            ),
        forall|i: int|
            0 <= i < plan.standalone.len() ==> failed(
                refused_plan(plan, message),
                (#[trigger] plan.standalone[i]).identity,
            ),
        forall|i: int|
            0 <= i < plan.missing_git.len() ==> failed(
                refused_plan(plan, message),
                (#[trigger] plan.missing_git[i]).identity,
            ),
        forall|id: Seq<char>|
            failed(plan.failures, id) ==> failed(refused_plan(plan, message), id),
{
    let first = refused_roots(
        plan.npm_roots,
        message,
        plan.npm_roots.len() as int,
        plan.failures,
    );
    let second = refused_standalone(
        plan.standalone,
        message,
        plan.standalone.len() as int,
        first,
    );
    lemma_roots_refused(plan.npm_roots, message, plan.npm_roots.len() as int, plan.failures);
    lemma_standalone_refused(plan.standalone, message, plan.standalone.len() as int, first);
    lemma_git_refused(plan.missing_git, message, plan.missing_git.len() as int, second);
}

/// Without a network the package manager is not asked: what it would report
/// changes nothing.
pub proof fn lemma_offline_ignores_reports<'a>(
    w: Workspace<'a>,
    legacy: &'a [LegacyPackage],
    include_project: bool,
)
    ensures
        offline_of(w, include_project) == offline_of(Workspace { legacy, ..w }, include_project),
{
}

/// Where the project is not trusted, nothing in its settings changes what is
/// installed or loaded.
pub proof fn lemma_untrusted_project_changes_nothing<'a>(
    w: Workspace<'a>,
    project_settings: &'a [Settings],
    failures: Seq<FailureModel>,
)
    ensures
        runtime_step(w, false) == runtime_step(Workspace { project_settings, ..w }, false),
        after_install(w, false, failures) == after_install(
            Workspace { project_settings, ..w },
            false,
            failures,
        ),
        offline_of(w, false) == offline_of(Workspace { project_settings, ..w }, false),
{
}

} // verus!
