//! The steps of a package update, and what is reported of each.

use vstd::prelude::*;

use crate::package_cli;
use crate::package_cli::{Line, LineModel, NativeModel, NativePackage, UpdateScope};
use crate::packages::{DiagnosticModel, PackageModel, PackageResources, PackageRoot, ResourcesModel};
use crate::paths;
use crate::paths::{EntryModel, FsPath, FsTree, PathModel};
use crate::runtime_plan;
use crate::runtime_plan::{InstallModel, NpmInstall, NpmRootPlan, RootModel};
use crate::stores;
use crate::stores::{PackageSource, Places, PlacesModel, ResolveScope, SourceModel};
use crate::text;

verus! {

/// One piece of work of an update.
pub enum UpdateJob {
    /// Install a native package again.
    Native { name: String },
    /// Bring an npm package up to date in its own directory.
    Standalone { root: FsPath, display_name: String, name: String, spec: String },
    /// Bring packages of an npm root up to date.
    NpmRoot { root: FsPath, installs: Vec<NpmInstall> },
    /// Check out a git package that is missing.
    MissingGit { user_scope: bool, spec: String, name: String },
    /// Bring the checkout of a git package up to date.
    Git { root: FsPath, store_root: FsPath, spec: String, name: String },
}

/// The model of `UpdateJob`.
pub enum JobModel {
    Native { name: Seq<char> },
    Standalone { root: PathModel, display_name: Seq<char>, name: Seq<char>, spec: Seq<char> },
    NpmRoot { root: PathModel, installs: Seq<InstallModel> },
    MissingGit { user_scope: bool, spec: Seq<char>, name: Seq<char> },
    Git { root: PathModel, store_root: PathModel, spec: Seq<char>, name: Seq<char> },
}

impl View for UpdateJob {
    type V = JobModel;

    open spec fn view(&self) -> JobModel {
        match self {
            UpdateJob::Native { name } => JobModel::Native { name: name@ },
            UpdateJob::Standalone { root, display_name, name, spec } => JobModel::Standalone {
                root: root@,
                display_name: display_name@,
                name: name@,
                spec: spec@,
            },
            UpdateJob::NpmRoot { root, installs } => JobModel::NpmRoot {
                root: root@,
                installs: runtime_plan::install_views(installs@),
            },
            UpdateJob::MissingGit { user_scope, spec, name } => JobModel::MissingGit {
                user_scope: *user_scope,
                spec: spec@,
                name: name@,
            },
            UpdateJob::Git { root, store_root, spec, name } => JobModel::Git {
                root: root@,
                store_root: store_root@,
                spec: spec@,
                name: name@,
            },
        }
    }
}

/// One step of an update: something to print, or something to do.
pub enum UpdateStep {
    Say(Line),
    Run(UpdateJob),
}

/// The model of `UpdateStep`.
pub enum StepModel {
    Say(LineModel),
    Run(JobModel),
}

impl View for UpdateStep {
    type V = StepModel;

    open spec fn view(&self) -> StepModel {
        match self {
            UpdateStep::Say(line) => StepModel::Say(line@),
            UpdateStep::Run(job) => StepModel::Run(job@),
        }
    }
}

/// The views of a list of steps.
pub open spec fn step_views(v: Seq<UpdateStep>) -> Seq<StepModel> {
    Seq::new(v.len(), |i: int| v[i]@)
}

/// What an update does: its steps in order, and what is counted before any
/// of them runs.
pub struct UpdatePlan {
    pub steps: Vec<UpdateStep>,
    pub skipped: usize,
    pub failed: usize,
    /// The exit code, where the update ends with these steps.
    pub code: Option<i32>,
}

/// The model of `UpdatePlan`.
#[verifier::ext_equal]
pub struct UpdatePlanModel {
    pub steps: Seq<StepModel>,
    pub skipped: nat,
    pub failed: nat,
    pub code: Option<i32>,
}

impl View for UpdatePlan {
    type V = UpdatePlanModel;

    open spec fn view(&self) -> UpdatePlanModel {
        UpdatePlanModel {
            steps: step_views(self.steps@),
            skipped: self.skipped as nat,
            failed: self.failed as nat,
            code: self.code,
        }
    }
}

/// A plan that only prints one line more and ends.
pub open spec fn ended(steps: Seq<StepModel>, line: LineModel, code: i32) -> UpdatePlanModel {
    UpdatePlanModel {
        steps: steps.push(StepModel::Say(line)),
        skipped: 0,
        failed: 0,
        code: Some(code),
    }
}

/// The name and the source of an npm package that an update concerns: it is
/// missing, or not pinned to one version.
pub open spec fn updateable_npm(p: PackageModel) -> Option<(Seq<char>, Seq<char>)> {
    match p.source {
        SourceModel::Npm { name, spec, pinned, .. } => if p.missing_install || !pinned {
            Some((name, spec))
        } else {
            None
        },
        _ => None,
    }
}

/// The name and the source of an npm package that an update concerns.
pub fn updateable_npm_source<'a>(p: &'a PackageRoot) -> (r: Option<(&'a str, &'a str)>)
    ensures
        text::opt_pair(r) == updateable_npm(p@),
{
    match &p.source {
        PackageSource::Npm { name, spec, pinned, .. } => if p.missing_install || !*pinned {
            Some((name.as_str(), spec.as_str()))
        } else {
            None
        },
        _ => None,
    }
}

/// Whether an update concerns a git package: it always does.
pub fn updateable_git_source(p: &PackageRoot) -> (r: bool)
    ensures
        r == (p@.source is Git),
{
    match &p.source {
        PackageSource::Git => true,
        _ => false,
    }
}

/// The store that a git package may be updated in.
pub open spec fn safe_store(fs: Seq<EntryModel>, places: PlacesModel, p: PackageModel) -> Option<
    PathModel,
> {
    match p.git_store_root {
        Some(root) => Some(root),
        None => stores::direct_store_of(fs, places, p.root, p.scope),
    }
}

/// The store that a git package may be updated in.
pub fn safe_git_store_root(fs: &FsTree, places: &Places, p: &PackageRoot) -> (r: Option<FsPath>)
    ensures
        paths::opt_path(r) == safe_store(fs@, places@, p@),
{
    match &p.git_store_root {
        Some(root) => Some(root.copy()),
        None => stores::is_direct_managed_package_root(fs, places, &p.root, p.scope),
    }
}

/// The line for a diagnostic of an update.
pub open spec fn blocked_line(d: DiagnosticModel) -> StepModel {
    StepModel::Say(
        package_cli::warned("warning: could not load package "@ + d.spec + ": "@ + d.message),
    )
}

/// The lines for the diagnostics of an update.
pub open spec fn blocked_lines(list: Seq<DiagnosticModel>) -> Seq<StepModel> {
    Seq::new(list.len(), |i: int| blocked_line(list[i]))
}

/// Whether some diagnostic stands in the way of an update.
pub open spec fn some_block(list: Seq<DiagnosticModel>) -> bool {
    exists|i: int| 0 <= i < list.len() && (#[trigger] list[i]).blocks_update
}

/// Whether some package is updated by the package manager or by git.
pub open spec fn needs_command(list: Seq<PackageModel>) -> bool {
    exists|i: int|
        0 <= i < list.len() && (updateable_npm(#[trigger] list[i]) is Some || list[i].source is Git)
}

/// The steps for the first `n` native packages, and how many are skipped:
/// those that did not come from the registry.
pub open spec fn native_steps(native: Seq<NativeModel>, n: int) -> (Seq<StepModel>, nat)
    decreases n,
{
    if n <= 0 {
        (seq![], 0)
    } else {
        let (steps, skipped) = native_steps(native, n - 1);
        let p = native[n - 1];
        if p.source is Some {
            (
                steps.push(
                    StepModel::Say(
                        package_cli::said(
                            "skipped local Rust package "@ + p.name + " (no registry source)"@,
                        ),
                    ),
                ),
                skipped + 1,
            )
        } else {
            (steps.push(StepModel::Run(JobModel::Native { name: p.name })), skipped)
        }
    }
}

/// The work for configured packages, sorted by how it is done.
#[verifier::ext_equal]
pub struct WorkModel {
    pub lines: Seq<StepModel>,
    pub standalone: Seq<StepModel>,
    pub roots: Seq<RootModel>,
    pub git: Seq<StepModel>,
    pub skipped: nat,
    pub failed: nat,
}

/// The step for a git package, and whether it is a refusal.
pub open spec fn git_step(fs: Seq<EntryModel>, places: PlacesModel, p: PackageModel) -> (
    StepModel,
    bool,
) {
    if p.missing_install {
        (
            StepModel::Run(
                JobModel::MissingGit {
                    user_scope: p.scope == ResolveScope::User,
                    spec: p.spec,
                    name: p.name,
                },
            ),
            false,
        )
    } else {
        match safe_store(fs, places, p) {
            Some(store_root) => (
                StepModel::Run(
                    JobModel::Git { root: p.root, store_root, spec: p.spec, name: p.name },
                ),
                false,
            ),
            None => (
                StepModel::Say(
                    package_cli::warned(
                        "warning: refusing to update git package "@ + p.name
                            + " outside a managed git store"@,
                    ),
                ),
                true,
            ),
        }
    }
}

/// The work after one more package.
pub open spec fn after_work(
    fs: Seq<EntryModel>,
    places: PlacesModel,
    trusted: bool,
    p: PackageModel,
    w: WorkModel,
) -> WorkModel {
    match updateable_npm(p) {
        Some((name, spec)) => match runtime_plan::store_root_of(p, places, trusted) {
            Ok(Some(root)) => WorkModel {
                roots: runtime_plan::with_install(
                    w.roots,
                    root,
                    InstallModel { name, spec, identity: seq![] },
                ),
                ..w
            },
            Ok(None) => WorkModel {
                standalone: w.standalone.push(
                    StepModel::Run(
                        JobModel::Standalone {
                            root: p.root,
                            display_name: p.name,
                            name,
                            spec,
                        },
                    ),
                ),
                ..w
            },
            Err(error) => WorkModel {
                lines: w.lines.push(
                    StepModel::Say(
                        package_cli::warned(
                            "warning: could not plan update for "@ + p.name + ": "@ + error,
                        ),
                    ),
                ),
                failed: w.failed + 1,
                ..w
            },
        },
        None => if p.source is Git {
            let (step, refused) = git_step(fs, places, p);
            WorkModel {
                git: w.git.push(step),
                failed: if refused {
                    w.failed + 1
                } else {
                    w.failed
                },
                ..w
            }
        } else {
            WorkModel {
                lines: w.lines.push(
                    StepModel::Say(
                        package_cli::said(
                            "skipped package "@ + p.name + " (not an unpinned npm source)"@,
                        ),
                    ),
                ),
                skipped: w.skipped + 1,
                ..w
            }
        },
    }
}

/// The work for the first `n` packages.
pub open spec fn work_of(
    fs: Seq<EntryModel>,
    places: PlacesModel,
    trusted: bool,
    list: Seq<PackageModel>,
    n: int,
) -> WorkModel
    decreases n,
{
    if n <= 0 {
        WorkModel {
            lines: seq![],
            standalone: seq![],
            roots: seq![],
            git: seq![],
            skipped: 0,
            failed: 0,
        }
    } else {
        after_work(fs, places, trusted, list[n - 1], work_of(fs, places, trusted, list, n - 1))
    }
}

/// The steps for npm roots.
pub open spec fn root_steps(roots: Seq<RootModel>) -> Seq<StepModel> {
    Seq::new(
        roots.len(),
        |i: int|
            StepModel::Run(
                JobModel::NpmRoot { root: roots[i].root, installs: roots[i].installs },
            ),
    )
}

/// What an update does. Anything that stands in the way ends it before any
/// package is touched.
pub open spec fn update_plan_of(
    fs: Seq<EntryModel>,
    places: PlacesModel,
    trusted: bool,
    offline: bool,
    native: Result<Seq<NativeModel>, Seq<char>>,
    pi: Result<(ResourcesModel, bool), Seq<char>>,
) -> UpdatePlanModel {
    if offline {
        ended(
            seq![],
            package_cli::said("package update skipped: offline mode is enabled"@),
            0,
        )
    } else if native is Err {
        ended(
            seq![],
            package_cli::warned(
                "error: refusing native package update while metadata is invalid: "@
                    + native->Err_0,
            ),
            1,
        )
    } else if pi is Err {
        ended(
            seq![],
            package_cli::warned(
                "error: refusing Pi package update with unreadable settings: "@ + pi->Err_0,
            ),
            1,
        )
    } else {
        let natives = native->Ok_0;
        let (resources, has_command) = pi->Ok_0;
        let warnings = blocked_lines(resources.diagnostics);
        if some_block(resources.diagnostics) {
            ended(
                warnings,
                package_cli::warned(
                    "error: refusing a partial package update after discovery failures"@,
                ),
                1,
            )
        } else if needs_command(resources.packages) && !has_command {
            ended(
                warnings,
                package_cli::warned(
                    "error: package update command was not validated before discovery"@,
                ),
                1,
            )
        } else if resources.packages.len() == 0 && natives.len() == 0 {
            ended(warnings, package_cli::said("no packages available for update"@), 0)
        } else {
            let (first, skipped) = native_steps(natives, natives.len() as int);
            let w = work_of(
                fs,
                places,
                trusted,
                resources.packages,
                resources.packages.len() as int,
            );
            UpdatePlanModel {
                steps: warnings + first + w.lines + w.standalone + root_steps(w.roots) + w.git,
                skipped: skipped + w.skipped,
                failed: w.failed,
                code: None,
            }
        }
    }
}

fn push_step(out: &mut Vec<UpdateStep>, step: UpdateStep)
    ensures
        step_views(final(out)@) == step_views(old(out)@).push(step@),
{
    let ghost added = step@;
    out.push(step);
    assert(step_views(out@) =~= step_views(old(out)@).push(added));
}

fn say(error: bool, text: String) -> (step: UpdateStep)
    ensures
        step@ == StepModel::Say(LineModel { error, text: text@ }),
{
    UpdateStep::Say(Line { error, text })
}

fn end_with(steps: Vec<UpdateStep>, error: bool, text: String, code: i32) -> (plan: UpdatePlan)
    ensures
        plan@ == ended(step_views(steps@), LineModel { error, text: text@ }, code),
{
    let mut steps = steps;
    push_step(&mut steps, say(error, text));
    UpdatePlan { steps, skipped: 0, failed: 0, code: Some(code) }
}

/// The work for configured packages, sorted by how it is done.
pub struct Work {
    pub lines: Vec<UpdateStep>,
    pub standalone: Vec<UpdateStep>,
    pub roots: Vec<NpmRootPlan>,
    pub git: Vec<UpdateStep>,
    pub skipped: usize,
    pub failed: usize,
}

impl View for Work {
    type V = WorkModel;

    open spec fn view(&self) -> WorkModel {
        WorkModel {
            lines: step_views(self.lines@),
            standalone: step_views(self.standalone@),
            roots: runtime_plan::root_views(self.roots@),
            git: step_views(self.git@),
            skipped: self.skipped as nat,
            failed: self.failed as nat,
        }
    }
}

fn plan_git(fs: &FsTree, places: &Places, p: &PackageRoot) -> (r: (UpdateStep, bool))
    ensures
        (r.0@, r.1) == git_step(fs@, places@, p@),
{
    if p.missing_install {
        return (
            UpdateStep::Run(
                UpdateJob::MissingGit {
                    user_scope: p.scope == ResolveScope::User,
                    spec: p.spec.clone(),
                    name: p.name.clone(),
                },
            ),
            false,
        );
    }
    match safe_git_store_root(fs, places, p) {
        Some(store_root) => (
            UpdateStep::Run(
                UpdateJob::Git {
                    root: p.root.copy(),
                    store_root,
                    spec: p.spec.clone(),
                    name: p.name.clone(),
                },
            ),
            false,
        ),
        None => (
            say(
                true,
                text::cat3(
                    "warning: refusing to update git package ",
                    p.name.as_str(),
                    " outside a managed git store",
                ),
            ),
            true,
        ),
    }
}

fn plan_work(fs: &FsTree, places: &Places, trusted: bool, p: &PackageRoot, w: &mut Work)
    requires
        old(w).skipped < usize::MAX,
        old(w).failed < usize::MAX,
    ensures
        final(w)@ == after_work(fs@, places@, trusted, p@, old(w)@),
        final(w).skipped <= old(w).skipped + 1,
        final(w).failed <= old(w).failed + 1,
{
    match updateable_npm_source(p) {
        Some((name, spec)) => {
            match runtime_plan::npm_store_root_for_update(p, places, trusted) {
                Ok(Some(root)) => {
                    let install = NpmInstall {
                        name: name.to_owned(),
                        spec: spec.to_owned(),
                        identity: String::new(),
                    };
                    assert(install@.identity =~= seq![]);
                    runtime_plan::add_install(&mut w.roots, root, install);
                },
                Ok(None) => {
                    push_step(
                        &mut w.standalone,
                        UpdateStep::Run(
                            UpdateJob::Standalone {
                                root: p.root.copy(),
                                display_name: p.name.clone(),
                                name: name.to_owned(),
                                spec: spec.to_owned(),
                            },
                        ),
                    );
                },
                Err(error) => {
                    push_step(
                        &mut w.lines,
                        say(
                            true,
                            text::cat4(
                                "warning: could not plan update for ",
                                p.name.as_str(),
                                ": ",
                                error.as_str(),
                            ),
                        ),
                    );
                    w.failed = w.failed + 1;
                },
            }
        },
        None => {
            if updateable_git_source(p) {
                let (step, refused) = plan_git(fs, places, p);
                push_step(&mut w.git, step);
                if refused {
                    w.failed = w.failed + 1;
                }
            } else {
                push_step(
                    &mut w.lines,
                    say(
                        false,
                        text::cat3(
                            "skipped package ",
                            p.name.as_str(),
                            " (not an unpinned npm source)",
                        ),
                    ),
                );
                w.skipped = w.skipped + 1;
            }
        },
    }
}

fn warn_blocked(r: &PackageResources) -> (out: Vec<UpdateStep>)
    ensures
        step_views(out@) == blocked_lines(r@.diagnostics),
{
    let mut out: Vec<UpdateStep> = Vec::new();
    let ghost lines = blocked_lines(r@.diagnostics);
    let mut i: usize = 0;
    while i < r.diagnostics.len()
        invariant
            i <= r.diagnostics@.len(),
            lines == blocked_lines(r@.diagnostics),
            step_views(out@) =~= lines.take(i as int),
        decreases r.diagnostics.len() - i,
    {
        let d = &r.diagnostics[i];
        assert(r@.diagnostics[i as int] == d@);
        push_step(
            &mut out,
            say(
                true,
                text::cat4(
                    "warning: could not load package ",
                    d.spec.as_str(),
                    ": ",
                    d.message.as_str(),
                ),
            ),
        );
        assert(step_views(out@).last() == blocked_line(d@));
        i += 1;
    }
    assert(lines.take(i as int) =~= lines);
    out
}

fn is_blocked(r: &PackageResources) -> (b: bool)
    ensures
        b == some_block(r@.diagnostics),
{
    let mut i: usize = 0;
    while i < r.diagnostics.len()
        invariant
            i <= r.diagnostics@.len(),
            forall|j: int| 0 <= j < i ==> !(#[trigger] r@.diagnostics[j]).blocks_update,
        decreases r.diagnostics.len() - i,
    {
        assert(r@.diagnostics[i as int] == r.diagnostics@[i as int]@);
        if r.diagnostics[i].blocks_update {
            return true;
        }
        i += 1;
    }
    false
}

fn is_command_needed(r: &PackageResources) -> (b: bool)
    ensures
        b == needs_command(r@.packages),
{
    let mut i: usize = 0;
    while i < r.packages.len()
        invariant
            i <= r.packages@.len(),
            forall|j: int|
                0 <= j < i ==> !(updateable_npm(#[trigger] r@.packages[j]) is Some
                    || r@.packages[j].source is Git),
        decreases r.packages.len() - i,
    {
        assert(r@.packages[i as int] == r.packages@[i as int]@);
        if updateable_npm_source(&r.packages[i]).is_some() || updateable_git_source(&r.packages[i]) {
            return true;
        }
        i += 1;
    }
    false
}

fn plan_native(native: &Vec<NativePackage>) -> (r: (Vec<UpdateStep>, usize))
    ensures
        (step_views(r.0@), r.1 as nat) == native_steps(
            package_cli::native_views(native@),
            native@.len() as int,
        ),
        r.1 <= native@.len(),
{
    let ghost all = package_cli::native_views(native@);
    let mut out: Vec<UpdateStep> = Vec::new();
    assert(step_views(out@) =~= seq![]);
    let mut skipped: usize = 0;
    let mut i: usize = 0;
    while i < native.len()
        invariant
            i <= native@.len(),
            all == package_cli::native_views(native@),
            skipped <= i,
            (step_views(out@), skipped as nat) == native_steps(all, i as int),
        decreases native.len() - i,
    {
        let p = &native[i];
        assert(all[i as int] == p@);
        if p.source.is_some() {
            push_step(
                &mut out,
                say(
                    false,
                    text::cat3(
                        "skipped local Rust package ",
                        p.name.as_str(),
                        " (no registry source)",
                    ),
                ),
            );
            skipped = skipped + 1;
        } else {
            push_step(&mut out, UpdateStep::Run(UpdateJob::Native { name: p.name.clone() }));
        }
        i += 1;
    }
    (out, skipped)
}

/// The view of the native packages of an update.
pub open spec fn native_result(r: Result<Vec<NativePackage>, String>) -> Result<
    Seq<NativeModel>,
    Seq<char>,
> {
    match r {
        Ok(v) => Ok(package_cli::native_views(v@)),
        Err(m) => Err(m@),
    }
}

/// The view of the configured packages of an update.
pub open spec fn pi_result(r: Result<(PackageResources, bool), String>) -> Result<
    (ResourcesModel, bool),
    Seq<char>,
> {
    match r {
        Ok(p) => Ok((p.0@, p.1)),
        Err(m) => Err(m@),
    }
}

/// Appends the steps of `more` to `steps`.
fn append_steps(steps: &mut Vec<UpdateStep>, more: Vec<UpdateStep>)
    ensures
        step_views(final(steps)@) == step_views(old(steps)@) + step_views(more@),
{
    let mut more = more;
    let ghost added = step_views(more@);
    steps.append(&mut more);
    assert(step_views(steps@) =~= step_views(old(steps)@) + added);
}

fn steps_of_roots(roots: Vec<NpmRootPlan>) -> (out: Vec<UpdateStep>)
    ensures
        step_views(out@) == root_steps(runtime_plan::root_views(roots@)),
{
    let ghost given = roots@;
    let ghost steps = root_steps(runtime_plan::root_views(roots@));
    let mut roots = roots;
    let mut reversed: Vec<UpdateStep> = Vec::new();
    while roots.len() > 0
        invariant
            steps == root_steps(runtime_plan::root_views(given)),
            roots@ =~= given.take(roots@.len() as int),
            roots@.len() + reversed@.len() == given.len(),
            forall|i: int|
                0 <= i < reversed@.len() ==> (#[trigger] reversed@[i])@ == steps[given.len() - 1
                    - i],
        decreases roots.len(),
    {
        let ghost before = roots@;
        match roots.pop() {
            Some(plan) => {
                assert(runtime_plan::root_views(given)[before.len() - 1] == plan@);
                let step = UpdateStep::Run(
                    UpdateJob::NpmRoot { root: plan.root, installs: plan.installs },
                );
                assert(step@ == steps[before.len() - 1]);
                reversed.push(step);
            },
            None => {},
        }
    }
    let mut out: Vec<UpdateStep> = Vec::new();
    while reversed.len() > 0
        invariant
            steps.len() == given.len(),
            reversed@.len() + out@.len() == given.len(),
            forall|i: int|
                0 <= i < reversed@.len() ==> (#[trigger] reversed@[i])@ == steps[given.len() - 1
                    - i],
            step_views(out@) =~= steps.take(out@.len() as int),
        decreases reversed.len(),
    {
        let ghost before = reversed@;
        match reversed.pop() {
            Some(step) => {
                assert(before[before.len() - 1]@ == steps[given.len() - before.len()]);
                push_step(&mut out, step);
                assert(step_views(out@).len() == out@.len());
            },
            None => {},
        }
    }
    assert(steps.take(out@.len() as int) =~= steps);
    out
}

/// What an update does. `native` are the native packages, or why their
/// records cannot be read, and `pi` the configured packages with whether the
/// package manager's command was found, or why the settings cannot be read;
/// either is empty where the update is not for it.
pub fn update_packages_with_scope(
    fs: &FsTree,
    places: &Places,
    project_trusted: bool,
    offline: bool,
    native: Result<Vec<NativePackage>, String>,
    pi: Result<(PackageResources, bool), String>,
) -> (plan: UpdatePlan)
    requires
        native matches Ok(n) ==> pi matches Ok(p) ==> n@.len() + p.0.packages@.len() < usize::MAX,
    ensures
        plan@ == update_plan_of(
            fs@,
            places@,
            project_trusted,
            offline,
            native_result(native),
            pi_result(pi),
        ),
{
    let nothing: Vec<UpdateStep> = Vec::new();
    assert(step_views(nothing@) =~= seq![]);
    if offline {
        return end_with(
            nothing,
            false,
            "package update skipped: offline mode is enabled".to_owned(),
            0,
        );
    }
    let natives = match native {
        Ok(natives) => natives,
        Err(error) => {
            return end_with(
                nothing,
                true,
                text::cat(
                    "error: refusing native package update while metadata is invalid: ",
                    error.as_str(),
                ),
                1,
            );
        },
    };
    let (resources, has_command) = match pi {
        Ok(p) => p,
        Err(error) => {
            return end_with(
                nothing,
                true,
                text::cat(
                    "error: refusing Pi package update with unreadable settings: ",
                    error.as_str(),
                ),
                1,
            );
        },
    };
    let mut steps = warn_blocked(&resources);
    if is_blocked(&resources) {
        return end_with(
            steps,
            true,
            "error: refusing a partial package update after discovery failures".to_owned(),
            1,
        );
    }
    if is_command_needed(&resources) && !has_command {
        return end_with(
            steps,
            true,
            "error: package update command was not validated before discovery".to_owned(),
            1,
        );
    }
    assert(resources@.packages.len() == resources.packages@.len());
    assert(package_cli::native_views(natives@).len() == natives@.len());
    if resources.packages.len() == 0 && natives.len() == 0 {
        return end_with(steps, false, "no packages available for update".to_owned(), 0);
    }
    let (first, skipped) = plan_native(&natives);
    let mut w = Work {
        lines: Vec::new(),
        standalone: Vec::new(),
        roots: Vec::new(),
        git: Vec::new(),
        skipped: 0,
        failed: 0,
    };
    assert(w@.lines =~= seq![] && w@.standalone =~= seq![] && w@.roots =~= seq![] && w@.git
        =~= seq![]);
    let mut i: usize = 0;
    while i < resources.packages.len()
        invariant
            i <= resources.packages@.len(),
            resources.packages@.len() < usize::MAX,
            w.skipped <= i,
            w.failed <= i,
            w@ == work_of(fs@, places@, project_trusted, resources@.packages, i as int),
        decreases resources.packages.len() - i,
    {
        assert(resources@.packages[i as int] == resources.packages@[i as int]@);
        plan_work(fs, places, project_trusted, &resources.packages[i], &mut w);
        i += 1;
    }
    append_steps(&mut steps, first);
    append_steps(&mut steps, w.lines);
    append_steps(&mut steps, w.standalone);
    append_steps(&mut steps, steps_of_roots(w.roots));
    append_steps(&mut steps, w.git);
    UpdatePlan { steps, skipped: skipped + w.skipped, failed: w.failed, code: None }
}

/// What is reported of a job: the lines, and how many packages were updated
/// and how many failed.
#[verifier::ext_equal]
pub struct ReportModel {
    pub lines: Seq<LineModel>,
    pub updated: nat,
    pub failed: nat,
}

/// What is reported of a job that went well (`None`) or failed.
pub open spec fn report_of(job: JobModel, outcome: Option<Seq<char>>) -> ReportModel {
    match job {
        JobModel::Native { name } => match outcome {
            None => ReportModel { lines: seq![], updated: 1, failed: 0 },
            Some(_) => one_failed("warning: could not update Rust package "@ + name),
        },
        JobModel::Standalone { display_name, .. } => match outcome {
            None => one_updated("updated npm package "@ + display_name),
            Some(error) => one_failed(
                "warning: could not update "@ + display_name + ": "@ + error,
            ),
        },
        JobModel::NpmRoot { root, installs } => match outcome {
            None => ReportModel {
                lines: updated_lines(installs),
                updated: installs.len(),
                failed: 0,
            },
            Some(error) => ReportModel {
                lines: seq![
                    package_cli::warned(
                        "warning: could not update npm packages "@ + text::joined(
                            install_names(installs),
                            ", "@,
                        ) + " in "@ + paths::path_text(root) + ": "@ + error,
                    ),
                ],
                updated: 0,
                failed: installs.len(),
            },
        },
        JobModel::MissingGit { name, .. } => git_report(name, outcome),
        JobModel::Git { name, .. } => git_report(name, outcome),
    }
}

/// The names of packages that are installed together.
pub open spec fn install_names(installs: Seq<InstallModel>) -> Seq<Seq<char>> {
    Seq::new(installs.len(), |i: int| installs[i].name)
}

/// A line for each package of a root that was updated.
pub open spec fn updated_lines(installs: Seq<InstallModel>) -> Seq<LineModel> {
    Seq::new(
        installs.len(),
        |i: int| package_cli::said("updated npm package "@ + installs[i].name),
    )
}

/// What is reported of a git package.
pub open spec fn git_report(name: Seq<char>, outcome: Option<Seq<char>>) -> ReportModel {
    match outcome {
        None => one_updated("updated git package "@ + name),
        Some(error) => one_failed("warning: could not update "@ + name + ": "@ + error),
    }
}

/// A report of one package that was updated.
pub open spec fn one_updated(line: Seq<char>) -> ReportModel {
    ReportModel { lines: seq![package_cli::said(line)], updated: 1, failed: 0 }
}

/// A report of one package that failed.
pub open spec fn one_failed(line: Seq<char>) -> ReportModel {
    ReportModel { lines: seq![package_cli::warned(line)], updated: 0, failed: 1 }
}

/// What is reported of a job.
pub struct JobReport {
    pub lines: Vec<Line>,
    pub updated: usize,
    pub failed: usize,
}

impl View for JobReport {
    type V = ReportModel;

    open spec fn view(&self) -> ReportModel {
        ReportModel {
            lines: package_cli::line_views(self.lines@),
            updated: self.updated as nat,
            failed: self.failed as nat,
        }
    }
}

fn report_one(error: bool, text: String) -> (r: JobReport)
    ensures
        r@ == (if error {
            one_failed(text@)
        } else {
            one_updated(text@)
        }),
{
    let mut lines: Vec<Line> = Vec::new();
    package_cli::push_line(&mut lines, error, text);
    assert(package_cli::line_views(lines@) =~= seq![LineModel { error, text: text@ }]);
    if error {
        JobReport { lines, updated: 0, failed: 1 }
    } else {
        JobReport { lines, updated: 1, failed: 0 }
    }
}

fn report_git(name: &str, outcome: &Option<String>) -> (r: JobReport)
    ensures
        r@ == git_report(name@, text::opt_text(*outcome)),
{
    match outcome {
        None => report_one(false, text::cat("updated git package ", name)),
        Some(error) => report_one(
            true,
            text::cat4("warning: could not update ", name, ": ", error.as_str()),
        ),
    }
}

fn names_of(installs: &Vec<NpmInstall>) -> (out: Vec<String>)
    ensures
        text::texts(out@) == install_names(runtime_plan::install_views(installs@)),
{
    let ghost names = install_names(runtime_plan::install_views(installs@));
    let mut out: Vec<String> = Vec::new();
    let mut i: usize = 0;
    while i < installs.len()
        invariant
            i <= installs@.len(),
            names == install_names(runtime_plan::install_views(installs@)),
            text::texts(out@) =~= names.take(i as int),
        decreases installs.len() - i,
    {
        text::push_text(&mut out, installs[i].name.as_str());
        i += 1;
    }
    assert(names.take(i as int) =~= names);
    out
}

/// What is reported of a job that went well (`None`) or failed.
pub fn report_job(job: &UpdateJob, outcome: &Option<String>) -> (r: JobReport)
    ensures
        r@ == report_of(job@, text::opt_text(*outcome)),
{
    match job {
        UpdateJob::Native { name } => match outcome {
            None => {
                let lines: Vec<Line> = Vec::new();
                assert(package_cli::line_views(lines@) =~= seq![]);
                JobReport { lines, updated: 1, failed: 0 }
            },
            Some(_) => report_one(
                true,
                text::cat("warning: could not update Rust package ", name.as_str()),
            ),
        },
        UpdateJob::Standalone { display_name, .. } => match outcome {
            None => report_one(false, text::cat("updated npm package ", display_name.as_str())),
            Some(error) => report_one(
                true,
                text::cat4(
                    "warning: could not update ",
                    display_name.as_str(),
                    ": ",
                    error.as_str(),
                ),
            ),
        },
        UpdateJob::NpmRoot { root, installs } => {
            let ghost models = runtime_plan::install_views(installs@);
            assert(models.len() == installs@.len());
            match outcome {
                None => {
                    let ghost all = updated_lines(models);
                    let mut lines: Vec<Line> = Vec::new();
                    let mut i: usize = 0;
                    while i < installs.len()
                        invariant
                            i <= installs@.len(),
                            models == runtime_plan::install_views(installs@),
                            all == updated_lines(models),
                            package_cli::line_views(lines@) =~= all.take(i as int),
                        decreases installs.len() - i,
                    {
                        assert(models[i as int] == installs@[i as int]@);
                        package_cli::push_line(
                            &mut lines,
                            false,
                            text::cat("updated npm package ", installs[i].name.as_str()),
                        );
                        i += 1;
                    }
                    assert(all.take(i as int) =~= all);
                    JobReport { lines, updated: installs.len(), failed: 0 }
                },
                Some(error) => {
                    let names = names_of(installs);
                    let joined = text::join(names.as_slice(), ", ");
                    let shown = root.to_text();
                    let mut message = text::cat4(
                        "warning: could not update npm packages ",
                        joined.as_str(),
                        " in ",
                        shown.as_str(),
                    );
                    message.append(": ");
                    message.append(error.as_str());
                    let mut lines: Vec<Line> = Vec::new();
                    let ghost content = message@;
                    package_cli::push_line(&mut lines, true, message);
                    assert(package_cli::line_views(lines@) =~= seq![package_cli::warned(content)]);
                    JobReport { lines, updated: 0, failed: installs.len() }
                },
            }
        },
        UpdateJob::MissingGit { name, .. } => report_git(name.as_str(), outcome),
        UpdateJob::Git { name, .. } => report_git(name.as_str(), outcome),
    }
}

/// The last line of an update.
pub open spec fn summary_text(scope: UpdateScope, updated: nat, skipped: nat) -> Seq<char> {
    let label = match scope {
        UpdateScope::Native => "native package update"@,
        UpdateScope::Pi => "Pi package update"@,
    };
    label + " complete: "@ + text::digits_of(updated) + " updated, "@ + text::digits_of(skipped)
        + " skipped"@
}

/// The last line of an update, and its exit code: 1 where anything failed.
pub fn finish_update(scope: UpdateScope, updated: usize, skipped: usize, failed: usize) -> (r: (
    String,
    i32,
))
    ensures
        r.0@ == summary_text(scope, updated as nat, skipped as nat),
        r.1 == (if failed > 0 {
            1i32
        } else {
            0i32
        }),
{
    let label = match scope {
        UpdateScope::Native => "native package update",
        UpdateScope::Pi => "Pi package update",
    };
    let done = text::number_text(updated as u64);
    let left = text::number_text(skipped as u64);
    let mut out = text::cat4(label, " complete: ", done.as_str(), " updated, ");
    out.append(left.as_str());
    out.append(" skipped");
    let code: i32 = if failed > 0 {
        1
    } else {
        0
    };
    (out, code)
}

/// Where anything stands in the way of an update, nothing is run: every step
/// only prints.
pub proof fn lemma_blocked_update_runs_nothing(
    fs: Seq<EntryModel>,
    places: PlacesModel,
    trusted: bool,
    offline: bool,
    native: Result<Seq<NativeModel>, Seq<char>>,
    pi: Result<(ResourcesModel, bool), Seq<char>>,
    i: int,
)
    requires
        offline || native is Err || pi is Err || some_block(pi->Ok_0.0.diagnostics),
        0 <= i < update_plan_of(fs, places, trusted, offline, native, pi).steps.len(),
    ensures
        update_plan_of(fs, places, trusted, offline, native, pi).steps[i] is Say,
        update_plan_of(fs, places, trusted, offline, native, pi).code is Some,
{
}

/// A report counts all the packages that its job stands for: as updated where
/// the job went well, and as failed where it did not.
pub proof fn lemma_report_counts_all(job: JobModel, outcome: Option<Seq<char>>)
    ensures
        report_of(job, outcome).updated + report_of(job, outcome).failed == packages_of(job),
        outcome is None ==> report_of(job, outcome).failed == 0,
        outcome is Some ==> report_of(job, outcome).updated == 0,
{
}

/// How many packages a job stands for.
pub open spec fn packages_of(job: JobModel) -> nat {
    match job {
        JobModel::NpmRoot { installs, .. } => installs.len(),
        _ => 1,
    }
}

/// How many packages the jobs among `steps` stand for.
pub open spec fn packages_in(steps: Seq<StepModel>) -> nat
    decreases steps.len(),
{
    if steps.len() == 0 {
        0
    } else {
        packages_in(steps.drop_last()) + (match steps.last() {
            StepModel::Say(_) => 0,
            StepModel::Run(job) => packages_of(job),
        })
    }
}

proof fn lemma_in_push(steps: Seq<StepModel>, step: StepModel)
    ensures
        packages_in(steps.push(step)) == packages_in(steps) + (match step {
            StepModel::Say(_) => 0,
            StepModel::Run(job) => packages_of(job),
        }),
{
    assert(steps.push(step).drop_last() =~= steps);
}

proof fn lemma_in_both(a: Seq<StepModel>, b: Seq<StepModel>)
    ensures
        packages_in(a + b) == packages_in(a) + packages_in(b),
    decreases b.len(),
{
    if b.len() == 0 {
        assert(a + b =~= a);
    } else {
        assert((a + b).drop_last() =~= a + b.drop_last());
        lemma_in_both(a, b.drop_last());
    }
}

proof fn lemma_in_update(steps: Seq<StepModel>, k: int, step: StepModel)
    requires
        0 <= k < steps.len(),
    ensures
        packages_in(steps.update(k, step)) + packages_in(seq![steps[k]]) == packages_in(steps)
            + packages_in(seq![step]),
{
    let (a, b) = (steps.take(k), steps.skip(k + 1));
    assert(steps =~= a + seq![steps[k]] + b);
    assert(steps.update(k, step) =~= a + seq![step] + b);
    lemma_in_both(a + seq![steps[k]], b);
    lemma_in_both(a, seq![steps[k]]);
    lemma_in_both(a + seq![step], b);
    lemma_in_both(a, seq![step]);
}

proof fn lemma_in_insert(steps: Seq<StepModel>, k: int, step: StepModel)
    requires
        0 <= k <= steps.len(),
    ensures
        packages_in(steps.insert(k, step)) == packages_in(steps) + packages_in(seq![step]),
{
    let (a, b) = (steps.take(k), steps.skip(k));
    assert(steps =~= a + b);
    assert(steps.insert(k, step) =~= a + seq![step] + b);
    lemma_in_both(a, b);
    lemma_in_both(a + seq![step], b);
    lemma_in_both(a, seq![step]);
}

proof fn lemma_slot_is_there(roots: Seq<RootModel>, root: PathModel, i: int)
    requires
        0 <= i <= roots.len(),
    ensures
        0 <= runtime_plan::root_slot(roots, root, i) <= roots.len(),
    decreases roots.len() - i,
{
    if i < roots.len() {
        lemma_slot_is_there(roots, root, i + 1);
    }
}

proof fn lemma_in_roots(roots: Seq<RootModel>, root: PathModel, install: InstallModel)
    ensures
        packages_in(root_steps(runtime_plan::with_install(roots, root, install))) == packages_in(
            root_steps(roots),
        ) + 1,
{
    let k = runtime_plan::root_slot(roots, root, 0);
    lemma_slot_is_there(roots, root, 0);
    let more = runtime_plan::with_install(roots, root, install);
    let steps = root_steps(roots);
    let step = root_steps(more)[k];
    lemma_in_push(seq![], step);
    assert(seq![].push(step) =~= seq![step]);
    if k < roots.len() && paths::same_path(roots[k].root, root) {
        lemma_in_push(seq![], steps[k]);
        assert(seq![].push(steps[k]) =~= seq![steps[k]]);
        assert(root_steps(more) =~= steps.update(k, step));
        lemma_in_update(steps, k, step);
    } else {
        assert(root_steps(more) =~= steps.insert(k, step));
        lemma_in_insert(steps, k, step);
    }
}

proof fn lemma_work_counts_all(
    fs: Seq<EntryModel>,
    places: PlacesModel,
    trusted: bool,
    list: Seq<PackageModel>,
    n: int,
)
    requires
        0 <= n <= list.len(),
    ensures
        ({
            let w = work_of(fs, places, trusted, list, n);
            &&& packages_in(w.lines) == 0
            &&& packages_in(w.standalone) + packages_in(root_steps(w.roots)) + packages_in(w.git)
                + w.skipped + w.failed == n
        }),
    decreases n,
{
    if n <= 0 {
        assert(root_steps(work_of(fs, places, trusted, list, n).roots) =~= seq![]);
    } else {
        lemma_work_counts_all(fs, places, trusted, list, n - 1);
        let before = work_of(fs, places, trusted, list, n - 1);
        let after = work_of(fs, places, trusted, list, n);
        let p = list[n - 1];
        if after.lines.len() > before.lines.len() {
            lemma_in_push(before.lines, after.lines.last());
        }
        if after.standalone.len() > before.standalone.len() {
            lemma_in_push(before.standalone, after.standalone.last());
        }
        if after.git.len() > before.git.len() {
            lemma_in_push(before.git, after.git.last());
        }
        match updateable_npm(p) {
            Some((name, spec)) => match runtime_plan::store_root_of(p, places, trusted) {
                Ok(Some(root)) => {
                    lemma_in_roots(
                        before.roots,
                        root,
                        InstallModel { name, spec, identity: seq![] },
                    );
                },
                _ => {},
            },
            None => {},
        }
    }
}

proof fn lemma_natives_count(native: Seq<NativeModel>, n: int)
    requires
        0 <= n <= native.len(),
    ensures
        packages_in(native_steps(native, n).0) + native_steps(native, n).1 == n,
    decreases n,
{
    if n > 0 {
        lemma_natives_count(native, n - 1);
        lemma_in_push(native_steps(native, n - 1).0, native_steps(native, n).0.last());
    }
}

proof fn lemma_warnings_count_nothing(list: Seq<DiagnosticModel>)
    ensures
        packages_in(blocked_lines(list)) == 0,
    decreases list.len(),
{
    if list.len() > 0 {
        lemma_warnings_count_nothing(list.drop_last());
        assert(blocked_lines(list).drop_last() =~= blocked_lines(list.drop_last()));
    }
}

/// In an update that goes ahead the packages that are skipped, those that have
/// failed already and those that its jobs stand for add up to all packages.
pub proof fn lemma_update_counts_all(
    fs: Seq<EntryModel>,
    places: PlacesModel,
    trusted: bool,
    offline: bool,
    native: Result<Seq<NativeModel>, Seq<char>>,
    pi: Result<(ResourcesModel, bool), Seq<char>>,
)
    requires
        update_plan_of(fs, places, trusted, offline, native, pi).code is None,
    ensures
        ({
            let plan = update_plan_of(fs, places, trusted, offline, native, pi);
            packages_in(plan.steps) + plan.skipped + plan.failed == native->Ok_0.len()
                + pi->Ok_0.0.packages.len()
        }),
{
    let natives = native->Ok_0;
    let (resources, _) = pi->Ok_0;
    let list = resources.packages;
    let warnings = blocked_lines(resources.diagnostics);
    let (first, _) = native_steps(natives, natives.len() as int);
    let w = work_of(fs, places, trusted, list, list.len() as int);
    lemma_warnings_count_nothing(resources.diagnostics);
    lemma_natives_count(natives, natives.len() as int);
    lemma_work_counts_all(fs, places, trusted, list, list.len() as int);
    lemma_in_both(warnings, first);
    lemma_in_both(warnings + first, w.lines);
    lemma_in_both(warnings + first + w.lines, w.standalone);
    lemma_in_both(warnings + first + w.lines + w.standalone, root_steps(w.roots));
    lemma_in_both(
        warnings + first + w.lines + w.standalone + root_steps(w.roots),
        w.git,
    );
}

/// A package that is pinned to one version is left alone while it is there.
pub proof fn lemma_pinned_npm_is_left_alone(p: PackageModel)
    requires
        p.source matches SourceModel::Npm { pinned, .. } && pinned,
        !p.missing_install,
    ensures
        updateable_npm(p) is None,
{
}

} // verus!
