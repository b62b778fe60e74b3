//! Which packages are found, installed and loaded.

use vstd::prelude::*;

use crate::discovery;
use crate::discovery::{DiscoveryModel, LookupModel, SettingModel};
use crate::laws::npm_sources;
use crate::laws::texts;
use crate::laws::versions;
use crate::npm_spec;
use crate::packages;
use crate::packages::{DiagnosticModel, PackageModel, ResourcesModel};
use crate::paths;
use crate::paths::{EntryModel, PathModel};
use crate::runtime_plan;
use crate::runtime_plan::{
    FailureModel, GitInstallModel, InstallModel, PlanModel, RootModel, RuntimeOutcomes,
};
use crate::stores;
use crate::stores::{PlacesModel, ResolveScope, SourceModel};
use crate::text;
use crate::version;

verus! {

/// A registry package that is configured with one number is installed anew
/// exactly where it is missing or its version has another major number.
pub proof fn lemma_wrong_major_is_installed_anew(
    p: PackageModel,
    name: Seq<char>,
    n: Seq<char>,
)
    requires
        npm_sources::slug(name),
        text::all_digits(n),
        text::decimal(n) <= u64::MAX,
        p.source matches SourceModel::Npm { spec, .. } && spec == seq!['n', 'p', 'm', ':'] + (name
            + seq!['@'] + n),
    ensures
        runtime_plan::needs_install(p) <==> p.missing_install || !(version::installed_version(
            p.version,
        ) matches Some(v) && v.major == text::decimal(n)),
{
    assert(npm_sources::slug(n));
    let s = name + seq!['@'] + n;
    npm_sources::lemma_selector_behind_name(name, n);
    lemma_not_npm(name, n);
    npm_sources::lemma_npm_in_front_says_nothing(s);
    versions::lemma_number_asks_for_its_major(p.version, n);
}

proof fn lemma_not_npm(name: Seq<char>, selector: Seq<char>)
    requires
        npm_sources::slug(name),
        npm_sources::slug(selector),
    ensures
        !text::begins(name + seq!['@'] + selector, seq!['n', 'p', 'm', ':']),
{
    let s = name + seq!['@'] + selector;
    npm_sources::lemma_slug(name);
    npm_sources::lemma_slug(selector);
    assert(!s.contains(':')) by {
        if s.contains(':') {
            let k = choose|k: int| 0 <= k < s.len() && s[k] == ':';
            if k < name.len() {
                assert(name.contains(name[k]));
            } else if k > name.len() {
                assert(selector.contains(selector[k - name.len() - 1]));
            }
        }
    }
    texts::lemma_begins_not(s, seq!['n', 'p', 'm', ':'], 3);
}

/// A registry package that is configured with an exact version is installed
/// anew exactly where it is missing or has another version.
pub proof fn lemma_wrong_version_is_installed_anew(
    p: PackageModel,
    name: Seq<char>,
    a: Seq<char>,
    b: Seq<char>,
    c: Seq<char>,
)
    requires
        npm_sources::slug(name),
        versions::numeral(a),
        versions::numeral(b),
        versions::numeral(c),
        p.source matches SourceModel::Npm { spec, .. } && spec == seq!['n', 'p', 'm', ':'] + (name
            + seq!['@'] + versions::triple(a, b, c)),
    ensures
        runtime_plan::needs_install(p) <==> p.missing_install || !(version::installed_version(
            p.version,
        ) matches Some(v) && v.major == text::decimal(a) && v.minor == text::decimal(b) && v.patch
            == text::decimal(c) && v.pre.len() == 0 && v.build.len() == 0),
{
    let t = versions::triple(a, b, c);
    lemma_triple_slug(a, b, c);
    npm_sources::lemma_selector_behind_name(name, t);
    lemma_not_npm(name, t);
    npm_sources::lemma_npm_in_front_says_nothing(name + seq!['@'] + t);
    versions::lemma_three_numbers_ask_for_one_version(p.version, a, b, c);
}

proof fn lemma_triple_slug(a: Seq<char>, b: Seq<char>, c: Seq<char>)
    requires
        versions::numeral(a),
        versions::numeral(b),
        versions::numeral(c),
    ensures
        npm_sources::slug(versions::triple(a, b, c)),
{
    let t = versions::triple(a, b, c);
    assert(t[0] == a[0]);
    assert forall|i: int| 0 <= i < t.len() implies text::is_alphanumeric(#[trigger] t[i]) || t[i]
        == '-' || t[i] == '_' || t[i] == '.' by {
        if i < a.len() {
            assert(t[i] == a[i]);
        } else if i > a.len() && i < a.len() + 1 + b.len() {
            assert(t[i] == b[i - a.len() - 1]);
        } else if i > a.len() + 1 + b.len() {
            assert(t[i] == c[i - a.len() - b.len() - 2]);
        }
    }
}

/// A package from the registry that is missing is installed, whatever its
/// version; one from elsewhere never is in this way.
pub proof fn lemma_who_is_installed(p: PackageModel)
    ensures
        p.source is Npm && p.missing_install ==> runtime_plan::needs_install(p),
        !(p.source is Npm) ==> !runtime_plan::needs_install(p),
        (p.source matches SourceModel::Npm { spec, .. } && npm_spec::npm_spec_of(spec) matches Some(
            parsed,
        ) && parsed.target_selector is None) && !p.missing_install
            ==> !runtime_plan::needs_install(p),
{
}

/// A source that is configured with an exact version is pinned; with a single
/// number, or with none, it is not.
pub proof fn lemma_exact_is_pinned(
    name: Seq<char>,
    a: Seq<char>,
    b: Seq<char>,
    c: Seq<char>,
)
    requires
        npm_sources::slug(name),
        versions::numeral(a),
        versions::numeral(b),
        versions::numeral(c),
    ensures
        stores::npm_source_of(
            seq!['n', 'p', 'm', ':'] + (name + seq!['@'] + versions::triple(a, b, c)),
        ) matches Some(SourceModel::Npm { name: own, pinned, requested, .. }) && own == name
            && pinned && requested == Some(versions::triple(a, b, c)),
        stores::npm_source_of(seq!['n', 'p', 'm', ':'] + (name + seq!['@'] + a)) matches Some(
            SourceModel::Npm { name: own, pinned, requested, .. },
        ) && own == name && !pinned && requested == Some(a),
        stores::npm_source_of(seq!['n', 'p', 'm', ':'] + name) matches Some(
            SourceModel::Npm { name: own, pinned, requested, .. },
        ) && own == name && !pinned && requested is None,
{
    reveal_strlit("npm:");
    let prefix = seq!['n', 'p', 'm', ':'];
    assert("npm:"@ =~= prefix);
    let t = versions::triple(a, b, c);
    lemma_triple_slug(a, b, c);
    versions::lemma_triple_reads(a, b, c);
    texts::lemma_prefix_goes(prefix, name + seq!['@'] + t);
    npm_sources::lemma_selector_behind_name(name, t);
    assert(npm_sources::slug(a));
    texts::lemma_prefix_goes(prefix, name + seq!['@'] + a);
    npm_sources::lemma_selector_behind_name(name, a);
    versions::lemma_number_is_inexact(a);
    texts::lemma_prefix_goes(prefix, name);
    npm_sources::lemma_name_alone(name);
}

/// Whether `roots` has `install` under `root`.
pub open spec fn root_installs(
    roots: Seq<RootModel>,
    root: PathModel,
    install: InstallModel,
) -> bool {
    exists|k: int|
        0 <= k < roots.len() && paths::same_path((#[trigger] roots[k]).root, root)
            && roots[k].installs.contains(install)
}

proof fn lemma_root_slot(roots: Seq<RootModel>, root: PathModel, i: int)
    requires
        0 <= i <= roots.len(),
    ensures
        i <= runtime_plan::root_slot(roots, root, i) <= roots.len(),
    decreases roots.len() - i,
{
    if i < roots.len() && paths::path_before(roots[i].root, root) {
        lemma_root_slot(roots, root, i + 1);
    }
}

/// A root that gets one more install has it, and what was planned stays.
pub proof fn lemma_with_install(
    roots: Seq<RootModel>,
    root: PathModel,
    install: InstallModel,
    other_root: PathModel,
    other: InstallModel,
)
    ensures
        root_installs(runtime_plan::with_install(roots, root, install), root, install),
        root_installs(roots, other_root, other) ==> root_installs(
            runtime_plan::with_install(roots, root, install),
            other_root,
            other,
        ),
{
    lemma_root_slot(roots, root, 0);
    let k = runtime_plan::root_slot(roots, root, 0);
    let out = runtime_plan::with_install(roots, root, install);
    if k < roots.len() && paths::same_path(roots[k].root, root) {
        let installs = roots[k].installs.push(install);
        assert(installs[roots[k].installs.len() as int] == install);
        assert(out[k].installs.contains(install));
        assert(paths::same_path(out[k].root, root));
        if root_installs(roots, other_root, other) {
            let j = choose|j: int|
                0 <= j < roots.len() && paths::same_path((#[trigger] roots[j]).root, other_root)
                    && roots[j].installs.contains(other);
            if j == k {
                let at = choose|at: int|
                    0 <= at < roots[k].installs.len() && roots[k].installs[at] == other;
                assert(out[k].installs[at] == other);
            }
            assert(paths::same_path(out[j].root, other_root));
        }
    } else {
        assert(out[k].root == root);
        assert(out[k].installs =~= seq![install]);
        assert(out[k].installs[0] == install);
        assert(paths::same_path(out[k].root, root));
        if root_installs(roots, other_root, other) {
            let j = choose|j: int|
                0 <= j < roots.len() && paths::same_path((#[trigger] roots[j]).root, other_root)
                    && roots[j].installs.contains(other);
            if j < k {
                assert(out[j] == roots[j]);
            } else {
                assert(out[j + 1] == roots[j]);
            }
        }
    }
}

/// Whether a plan does something for the package `p`: it is installed below
/// its root or on its own, or fetched, or it failed already.
pub open spec fn planned_for(
    fs: Seq<EntryModel>,
    places: PlacesModel,
    trusted: bool,
    plan: PlanModel,
    p: PackageModel,
) -> bool {
    let identity = packages::identity_of(fs, p);
    match p.source {
        SourceModel::Npm { name, spec, .. } => match runtime_plan::store_root_of(
            p,
            places,
            trusted,
        ) {
            Ok(Some(root)) => root_installs(
                plan.npm_roots,
                root,
                InstallModel { name, spec, identity },
            ),
            Ok(None) => exists|i: int|
                0 <= i < plan.standalone.len() && (#[trigger] plan.standalone[i]).root == p.root
                    && plan.standalone[i].name == name && plan.standalone[i].spec == spec
                    && plan.standalone[i].identity == identity,
            Err(_) => has_failed(plan.failures, identity),
        },
        _ => plan.missing_git.contains(
            GitInstallModel {
                user_scope: p.scope == ResolveScope::User,
                spec: p.spec,
                identity,
            },
        ),
    }
}

/// Whether a failure has this identity.
pub open spec fn has_failed(failures: Seq<FailureModel>, identity: Seq<char>) -> bool {
    exists|k: int| 0 <= k < failures.len() && (#[trigger] failures[k]).identity == identity
}

proof fn lemma_failure_slot(failures: Seq<FailureModel>, identity: Seq<char>, i: int)
    requires
        0 <= i,
    ensures
        match runtime_plan::failure_slot(failures, identity, i) {
            Some(k) => i <= k < failures.len() && failures[k].identity == identity,
            None => forall|k: int|
                i <= k < failures.len() ==> (#[trigger] failures[k]).identity != identity,
        },
    decreases failures.len() - i,
{
    if i < failures.len() && failures[i].identity != identity {
        lemma_failure_slot(failures, identity, i + 1);
    }
}

/// A failure is noted under its identity, once: the later one counts, and all
/// others stay.
pub proof fn lemma_failure_is_noted(
    failures: Seq<FailureModel>,
    f: FailureModel,
    identity: Seq<char>,
)
    ensures
        runtime_plan::with_failure(failures, f).contains(f),
        has_failed(runtime_plan::with_failure(failures, f), identity) <==> has_failed(
            failures,
            identity,
        ) || identity == f.identity,
        runtime_plan::with_failure(failures, f).len() == (if has_failed(failures, f.identity) {
            failures.len()
        } else {
            failures.len() + 1
        }),
{
    lemma_failure_slot(failures, f.identity, 0);
    let out = runtime_plan::with_failure(failures, f);
    match runtime_plan::failure_slot(failures, f.identity, 0) {
        Some(k) => {
            assert(out[k] == f);
            assert(failures[k].identity == f.identity);
            if has_failed(failures, identity) {
                let j = choose|j: int|
                    0 <= j < failures.len() && (#[trigger] failures[j]).identity == identity;
                assert(out[j].identity == identity);
            }
            if has_failed(out, identity) {
                let j = choose|j: int|
                    0 <= j < out.len() && (#[trigger] out[j]).identity == identity;
                assert(j == k || failures[j].identity == identity);
            }
            if identity == f.identity {
                assert(out[k].identity == identity);
            }
        },
        None => {
            let n = failures.len() as int;
            assert(out[n] == f);
            if has_failed(failures, identity) {
                let j = choose|j: int|
                    0 <= j < failures.len() && (#[trigger] failures[j]).identity == identity;
                assert(out[j].identity == identity);
            }
            if has_failed(out, identity) {
                let j = choose|j: int|
                    0 <= j < out.len() && (#[trigger] out[j]).identity == identity;
                assert(j == n || failures[j].identity == identity);
            }
            if identity == f.identity {
                assert(out[n].identity == identity);
            }
        },
    }
}

proof fn lemma_planning_step(
    fs: Seq<EntryModel>,
    places: PlacesModel,
    trusted: bool,
    p: PackageModel,
    plan: PlanModel,
    q: PackageModel,
)
    ensures
        runtime_plan::needs_install(p) || (p.missing_install && p.source is Git) ==> planned_for(
            fs,
            places,
            trusted,
            runtime_plan::after_planning(fs, places, trusted, p, plan),
            p,
        ),
        planned_for(fs, places, trusted, plan, q) ==> planned_for(
            fs,
            places,
            trusted,
            runtime_plan::after_planning(fs, places, trusted, p, plan),
            q,
        ),
{
    let after = runtime_plan::after_planning(fs, places, trusted, p, plan);
    let identity = packages::identity_of(fs, p);
    let other = packages::identity_of(fs, q);
    if runtime_plan::needs_install(p) {
        let install = InstallModel { name: p.source->name, spec: p.source->spec, identity };
        match runtime_plan::store_root_of(p, places, trusted) {
            Ok(Some(root)) => {
                lemma_with_install(plan.npm_roots, root, install, root, install);
                if let SourceModel::Npm { name, spec, .. } = q.source {
                    if let Ok(Some(r)) = runtime_plan::store_root_of(q, places, trusted) {
                        lemma_with_install(
                            plan.npm_roots,
                            root,
                            install,
                            r,
                            InstallModel { name, spec, identity: other },
                        );
                    }
                }
            },
            Ok(None) => {
                let n = plan.standalone.len() as int;
                assert(after.standalone[n].root == p.root);
                if let SourceModel::Npm { name, spec, .. } = q.source {
                    if planned_for(fs, places, trusted, plan, q) && runtime_plan::store_root_of(
                        q,
                        places,
                        trusted,
                    ) == Ok::<Option<PathModel>, Seq<char>>(None) {
                        let i = choose|i: int|
                            0 <= i < plan.standalone.len() && (
                            #[trigger] plan.standalone[i]).root == q.root
                                && plan.standalone[i].name == name && plan.standalone[i].spec
                                == spec && plan.standalone[i].identity == other;
                        assert(after.standalone[i] == plan.standalone[i]);
                    }
                }
            },
            Err(message) => {
                let f = FailureModel { identity, spec: p.spec, message };
                lemma_failure_is_noted(plan.failures, f, identity);
                lemma_failure_is_noted(plan.failures, f, other);
            },
        }
    } else if p.missing_install && p.source is Git {
        let n = plan.missing_git.len() as int;
        let git = GitInstallModel {
            user_scope: p.scope == ResolveScope::User,
            spec: p.spec,
            identity,
        };
        assert(after.missing_git[n] == git);
        let wanted = GitInstallModel {
            user_scope: q.scope == ResolveScope::User,
            spec: q.spec,
            identity: other,
        };
        if plan.missing_git.contains(wanted) {
            let i = choose|i: int| 0 <= i < n && plan.missing_git[i] == wanted;
            assert(after.missing_git[i] == wanted);
        }
    }
}

/// The plan sees to every package that needs it: each one from the registry
/// that is missing or has the wrong version, and each repository that is
/// missing.
pub proof fn lemma_plan_sees_to_all(
    fs: Seq<EntryModel>,
    places: PlacesModel,
    trusted: bool,
    list: Seq<PackageModel>,
    n: int,
    i: int,
)
    requires
        0 <= i < n <= list.len(),
        runtime_plan::needs_install(list[i]) || (list[i].missing_install && list[i].source is Git),
    ensures
        planned_for(
            fs,
            places,
            trusted,
            runtime_plan::plan_of(fs, places, trusted, list, n),
            list[i],
        ),
    decreases n,
{
    let before = runtime_plan::plan_of(fs, places, trusted, list, n - 1);
    lemma_planning_step(fs, places, trusted, list[n - 1], before, list[i]);
    if i < n - 1 {
        lemma_plan_sees_to_all(fs, places, trusted, list, n - 1, i);
    }
}

/// A package that needs nothing changes no plan; where none needs anything
/// there is nothing to do.
pub proof fn lemma_plan_leaves_the_rest(
    fs: Seq<EntryModel>,
    places: PlacesModel,
    trusted: bool,
    list: Seq<PackageModel>,
    n: int,
)
    requires
        0 <= n <= list.len(),
        forall|i: int|
            0 <= i < n ==> !runtime_plan::needs_install(#[trigger] list[i]) && !(
            list[i].missing_install && list[i].source is Git),
    ensures
        runtime_plan::plan_is_empty(runtime_plan::plan_of(fs, places, trusted, list, n)),
    decreases n,
{
    if n > 0 {
        lemma_plan_leaves_the_rest(fs, places, trusted, list, n - 1);
    }
}

/// An untrusted project's package is not moved out of where the package
/// manager keeps it, and a package without a store of its own is installed
/// where it is.
pub proof fn lemma_where_it_is_installed(p: PackageModel, places: PlacesModel, trusted: bool)
    ensures
        p.npm_install_root matches Some(root) ==> runtime_plan::store_root_of(p, places, trusted)
            == Ok::<Option<PathModel>, Seq<char>>(Some(root)),
        p.npm_install_root is None && p.legacy_npm_root is None ==> runtime_plan::store_root_of(
            p,
            places,
            trusted,
        ) == Ok::<Option<PathModel>, Seq<char>>(None),
        p.npm_install_root is None && p.legacy_npm_root is Some && p.scope == ResolveScope::Project
            && !trusted ==> runtime_plan::store_root_of(p, places, trusted) is Err,
        p.npm_install_root is None && p.legacy_npm_root is Some && !(p.source is Npm)
            ==> runtime_plan::store_root_of(p, places, trusted) is Err,
{
}

proof fn lemma_kept(
    fs: Seq<EntryModel>,
    list: Seq<PackageModel>,
    n: int,
    failures: Seq<FailureModel>,
    p: PackageModel,
)
    requires
        0 <= n <= list.len(),
    ensures
        runtime_plan::unfailed(fs, list, n, failures).contains(p) <==> list.take(n).contains(p)
            && !has_failed(failures, packages::identity_of(fs, p)),
    decreases n,
{
    if n > 0 {
        lemma_kept(fs, list, n - 1, failures, p);
        let rest = runtime_plan::unfailed(fs, list, n - 1, failures);
        let out = runtime_plan::unfailed(fs, list, n, failures);
        lemma_failure_slot(failures, packages::identity_of(fs, list[n - 1]), 0);
        if let Some(k) = runtime_plan::failure_slot(
            failures,
            packages::identity_of(fs, list[n - 1]),
            0,
        ) {
            assert(failures[k].identity == packages::identity_of(fs, list[n - 1]));
        }
        let head = list.take(n - 1);
        let more = list.take(n);
        assert(more =~= head.push(list[n - 1]));
        if head.contains(p) {
            let k = choose|k: int| 0 <= k < head.len() && head[k] == p;
            assert(more[k] == p);
        }
        if more.contains(p) {
            let k = choose|k: int| 0 <= k < more.len() && more[k] == p;
            assert(k < n - 1 ==> head[k] == p);
        }
        if rest.contains(p) {
            let k = choose|k: int| 0 <= k < rest.len() && rest[k] == p;
            assert(out[k] == p);
        }
        if out.contains(p) {
            let k = choose|k: int| 0 <= k < out.len() && out[k] == p;
            assert(k < rest.len() ==> rest[k] == p);
        }
        if p == list[n - 1] && !has_failed(failures, packages::identity_of(fs, p)) {
            assert(out[rest.len() as int] == p);
            assert(more[n - 1] == p);
        }
    } else {
        assert(list.take(0) =~= seq![]);
    }
}

/// What is loaded is every package that did not fail and no other, and every
/// failure is told.
pub proof fn lemma_all_but_the_failed_are_loaded(
    fs: Seq<EntryModel>,
    r: ResourcesModel,
    failures: Seq<FailureModel>,
    p: PackageModel,
    k: int,
)
    ensures
        runtime_plan::without_failed(fs, r, failures).packages.contains(p)
            <==> r.packages.contains(p) && !has_failed(failures, packages::identity_of(fs, p)),
        0 <= k < failures.len() ==> runtime_plan::without_failed(
            fs,
            r,
            failures,
        ).diagnostics.contains(
            DiagnosticModel {
                spec: failures[k].spec,
                message: failures[k].message,
                blocks_update: true,
            },
        ),
{
    let n = r.packages.len() as int;
    assert(r.packages.take(n) =~= r.packages);
    lemma_kept(fs, r.packages, n, failures, p);
    if 0 <= k < failures.len() {
        let first = runtime_plan::other_diagnostics(
            r.diagnostics,
            r.diagnostics.len() as int,
            failures,
        );
        let out = runtime_plan::without_failed(fs, r, failures).diagnostics;
        assert(out[first.len() + k] == runtime_plan::as_diagnostics(failures)[k]);
    }
}

/// Where every install went well, no failure is added; one that did not go
/// well is noted.
pub proof fn lemma_outcomes_are_noted(plan: PlanModel, outcomes: RuntimeOutcomes, i: int)
    ensures
        (forall|k: int| #[trigger]
            runtime_plan::outcome_at(outcomes.standalone@, k) is None) && (forall|k: int| #[trigger]
            runtime_plan::outcome_at(outcomes.npm_roots@, k) is None) && (forall|k: int| #[trigger]
            runtime_plan::outcome_at(outcomes.missing_git@, k) is None)
            ==> runtime_plan::failures_after(plan, outcomes) == plan.failures,
        0 <= i < plan.missing_git.len() && runtime_plan::outcome_at(outcomes.missing_git@, i)
            is Some ==> has_failed(
            runtime_plan::failures_after(plan, outcomes),
            plan.missing_git[i].identity,
        ),
        0 <= i < plan.standalone.len() && runtime_plan::outcome_at(outcomes.standalone@, i)
            is Some ==> has_failed(
            runtime_plan::failures_after(plan, outcomes),
            plan.standalone[i].identity,
        ),
{
    let a = runtime_plan::after_standalone(
        plan.standalone,
        outcomes.standalone@,
        plan.standalone.len() as int,
        plan.failures,
    );
    let b = runtime_plan::after_roots(
        plan.npm_roots,
        outcomes.npm_roots@,
        plan.npm_roots.len() as int,
        a,
    );
    lemma_standalone_noted(plan, outcomes, plan.standalone.len() as int, i);
    lemma_roots_noted(plan, outcomes, plan.npm_roots.len() as int, a);
    lemma_git_noted(plan, outcomes, plan.missing_git.len() as int, b, i);
    if 0 <= i < plan.standalone.len() && has_failed(a, plan.standalone[i].identity) {
        assert(has_failed(b, plan.standalone[i].identity));
    }
}

proof fn lemma_standalone_noted(plan: PlanModel, outcomes: RuntimeOutcomes, n: int, i: int)
    requires
        0 <= n <= plan.standalone.len(),
    ensures
        ({
            let out = runtime_plan::after_standalone(
                plan.standalone,
                outcomes.standalone@,
                n,
                plan.failures,
            );
            &&& (forall|k: int| #[trigger]
                runtime_plan::outcome_at(outcomes.standalone@, k) is None) ==> out == plan.failures
            &&& 0 <= i < n && runtime_plan::outcome_at(outcomes.standalone@, i) is Some
                ==> has_failed(out, plan.standalone[i].identity)
        }),
    decreases n,
{
    if n > 0 {
        lemma_standalone_noted(plan, outcomes, n - 1, i);
        let rest = runtime_plan::after_standalone(
            plan.standalone,
            outcomes.standalone@,
            n - 1,
            plan.failures,
        );
        if let Some(error) = runtime_plan::outcome_at(outcomes.standalone@, n - 1) {
            let f = FailureModel {
                identity: plan.standalone[n - 1].identity,
                spec: plan.standalone[n - 1].spec,
                message: "could not restore npm package "@ + plan.standalone[n - 1].display_name
                    + ": "@ + error,
            };
            if 0 <= i < plan.standalone.len() {
                lemma_failure_is_noted(rest, f, plan.standalone[i].identity);
            }
        }
    }
}

proof fn lemma_installs_noted(
    list: Seq<InstallModel>,
    message: Seq<char>,
    n: int,
    failures: Seq<FailureModel>,
    identity: Seq<char>,
)
    requires
        0 <= n <= list.len(),
    ensures
        has_failed(failures, identity) ==> has_failed(
            runtime_plan::after_installs(list, message, n, failures),
            identity,
        ),
        forall|k: int|
            0 <= k < n && (#[trigger] list[k]).identity == identity ==> has_failed(
                runtime_plan::after_installs(list, message, n, failures),
                identity,
            ),
    decreases n,
{
    if n > 0 {
        lemma_installs_noted(list, message, n - 1, failures, identity);
        lemma_failure_is_noted(
            runtime_plan::after_installs(list, message, n - 1, failures),
            FailureModel { identity: list[n - 1].identity, spec: list[n - 1].spec, message },
            identity,
        );
    }
}

proof fn lemma_roots_noted(
    plan: PlanModel,
    outcomes: RuntimeOutcomes,
    n: int,
    failures: Seq<FailureModel>,
)
    requires
        0 <= n <= plan.npm_roots.len(),
    ensures
        ({
            let out = runtime_plan::after_roots(
                plan.npm_roots,
                outcomes.npm_roots@,
                n,
                failures,
            );
            &&& (forall|k: int| #[trigger]
                runtime_plan::outcome_at(outcomes.npm_roots@, k) is None) ==> out == failures
            &&& forall|id: Seq<char>| #[trigger] has_failed(failures, id) ==> has_failed(out, id)
            &&& forall|i: int, j: int|
                0 <= i < n && runtime_plan::outcome_at(outcomes.npm_roots@, i) is Some && 0 <= j
                    < plan.npm_roots[i].installs.len() ==> has_failed(
                    out,
                    (#[trigger] plan.npm_roots[i].installs[j]).identity,
                )
        }),
    decreases n,
{
    if n > 0 {
        lemma_roots_noted(plan, outcomes, n - 1, failures);
        let rest = runtime_plan::after_roots(
            plan.npm_roots,
            outcomes.npm_roots@,
            n - 1,
            failures,
        );
        let out = runtime_plan::after_roots(plan.npm_roots, outcomes.npm_roots@, n, failures);
        let last = plan.npm_roots[n - 1].installs;
        if let Some(error) = runtime_plan::outcome_at(outcomes.npm_roots@, n - 1) {
            let message = "could not restore npm package: "@ + error;
            assert forall|id: Seq<char>| #[trigger] has_failed(rest, id) implies has_failed(
                out,
                id,
            ) by {
                lemma_installs_noted(last, message, last.len() as int, rest, id);
            }
            assert forall|i: int, j: int|
                0 <= i < n && runtime_plan::outcome_at(outcomes.npm_roots@, i) is Some && 0 <= j
                    < plan.npm_roots[i].installs.len() implies has_failed(
                out,
                (#[trigger] plan.npm_roots[i].installs[j]).identity,
            ) by {
                let id = plan.npm_roots[i].installs[j].identity;
                if i < n - 1 {
                    assert(has_failed(rest, id));
                } else {
                    lemma_installs_noted(last, message, last.len() as int, rest, id);
                    assert(last[j].identity == id);
                }
            }
        }
    }
}

proof fn lemma_git_noted(
    plan: PlanModel,
    outcomes: RuntimeOutcomes,
    n: int,
    failures: Seq<FailureModel>,
    i: int,
)
    requires
        0 <= n <= plan.missing_git.len(),
    ensures
        ({
            let out = runtime_plan::after_git(
                plan.missing_git,
                outcomes.missing_git@,
                n,
                failures,
            );
            &&& (forall|k: int| #[trigger]
                runtime_plan::outcome_at(outcomes.missing_git@, k) is None) ==> out == failures
            &&& forall|id: Seq<char>| #[trigger] has_failed(failures, id) ==> has_failed(out, id)
            &&& 0 <= i < n && runtime_plan::outcome_at(outcomes.missing_git@, i) is Some
                ==> has_failed(out, plan.missing_git[i].identity)
        }),
    decreases n,
{
    if n > 0 {
        lemma_git_noted(plan, outcomes, n - 1, failures, i);
        let rest = runtime_plan::after_git(
            plan.missing_git,
            outcomes.missing_git@,
            n - 1,
            failures,
        );
        let out = runtime_plan::after_git(plan.missing_git, outcomes.missing_git@, n, failures);
        if let Some(error) = runtime_plan::outcome_at(outcomes.missing_git@, n - 1) {
            let f = FailureModel {
                identity: plan.missing_git[n - 1].identity,
                spec: plan.missing_git[n - 1].spec,
                message: "could not restore git package: "@ + error,
            };
            assert forall|id: Seq<char>| #[trigger] has_failed(failures, id) implies has_failed(
                out,
                id,
            ) by {
                assert(has_failed(rest, id));
                lemma_failure_is_noted(rest, f, id);
            }
            if 0 <= i < plan.missing_git.len() {
                lemma_failure_is_noted(rest, f, plan.missing_git[i].identity);
            }
        }
    }
}

/// Where the install below a root did not go well, every package that was to
/// be installed there failed.
pub proof fn lemma_failed_root_fails_all(
    plan: PlanModel,
    outcomes: RuntimeOutcomes,
    i: int,
    j: int,
)
    requires
        0 <= i < plan.npm_roots.len(),
        0 <= j < plan.npm_roots[i].installs.len(),
        runtime_plan::outcome_at(outcomes.npm_roots@, i) is Some,
    ensures
        has_failed(
            runtime_plan::failures_after(plan, outcomes),
            plan.npm_roots[i].installs[j].identity,
        ),
{
    let a = runtime_plan::after_standalone(
        plan.standalone,
        outcomes.standalone@,
        plan.standalone.len() as int,
        plan.failures,
    );
    let b = runtime_plan::after_roots(
        plan.npm_roots,
        outcomes.npm_roots@,
        plan.npm_roots.len() as int,
        a,
    );
    lemma_roots_noted(plan, outcomes, plan.npm_roots.len() as int, a);
    assert(has_failed(b, plan.npm_roots[i].installs[j].identity));
    lemma_git_noted(plan, outcomes, plan.missing_git.len() as int, b, 0);
}

/// What one entry of the settings does: nothing where it is blank; a
/// complaint where nothing is found and nothing can be fetched; a package
/// where one is found that was not seen and can be loaded.
pub proof fn lemma_entry_is_found_or_told(
    l: LookupModel,
    entry: SettingModel,
    d: DiscoveryModel,
)
    requires
        !l.recover,
    ensures
        ({
            let after = discovery::after_entry(l, entry, d);
            let found = packages::resolution_of(l.fs, l.places, entry.source, l.scope, l.legacy);
            &&& text::trim_of(entry.source).len() == 0 ==> after == d
            &&& text::trim_of(entry.source).len() > 0 && found is None ==> after.packages
                == d.packages && after.diagnostics.len() == d.diagnostics.len() + 1
                && after.diagnostics.last().spec == entry.source
            &&& text::trim_of(entry.source).len() > 0 ==> (found matches Some((root, global)) ==> {
                let seen = d.seen.contains(packages::path_key(l.fs, root));
                let loaded = packages::loaded(
                    l.fs,
                    l.places,
                    root,
                    entry.source,
                    l.scope,
                    entry.filter,
                    global,
                );
                &&& seen ==> after == d
                &&& !seen && loaded is Ok ==> after.packages == d.packages.push(loaded->Ok_0)
                    && after.diagnostics == d.diagnostics
                &&& !seen && loaded is Err ==> after.packages == d.packages
                    && after.diagnostics.len() == d.diagnostics.len() + 1
                    && after.diagnostics.last().message == loaded->Err_0
                &&& !seen ==> after.seen == d.seen.push(packages::path_key(l.fs, root))
            })
        }),
{
    reveal(discovery::after_entry);
}

/// With recovery, a package that is not there is taken up as missing, from
/// the registry or a repository, at the place where it will be; a place whose
/// recovery failed is complained of.
pub proof fn lemma_missing_is_taken_up(l: LookupModel, entry: SettingModel, d: DiscoveryModel)
    requires
        l.recover,
        text::trim_of(entry.source).len() > 0,
    ensures
        ({
            let after = discovery::after_entry(l, entry, d);
            let failure = discovery::recovery_failure(
                l.fs,
                l.recovery_failures,
                discovery::recovery_targets_of(l.places, entry.source, l.scope),
                0,
            );
            let found = packages::resolution_of(l.fs, l.places, entry.source, l.scope, l.legacy);
            let missing = discovery::missing_of(l.places, entry.source, l.scope, entry.filter);
            &&& failure matches Some(message) ==> after.packages == d.packages
                && after.diagnostics.len() == d.diagnostics.len() + 1
                && after.diagnostics.last().message == message
            &&& failure is None && found is None ==> (missing matches Ok(Some(p)) ==> (if d.seen.contains(
                packages::identity_of(l.fs, p),
            ) {
                after == d
            } else {
                after.packages == d.packages.push(p)
            }))
            &&& failure is None && found is None && missing is Err ==> after.diagnostics.len()
                == d.diagnostics.len() + 1 && after.packages == d.packages
        }),
{
    reveal(discovery::after_entry);
}

/// What stands for a package that is missing: it has no files and no version,
/// and is marked as missing.
pub proof fn lemma_missing_has_nothing(
    places: PlacesModel,
    spec: Seq<char>,
    scope: ResolveScope,
    filter: Option<crate::resources::FilterModel>,
)
    ensures
        discovery::missing_of(places, spec, scope, filter) matches Ok(Some(p)) ==> {
            &&& p.missing_install
            &&& p.version is None
            &&& p.spec == spec
            &&& p.scope == scope
            &&& p.filter == filter
            &&& p.extensions.len() == 0 && p.skills.len() == 0 && p.prompts.len() == 0
                && p.themes.len() == 0
            &&& stores::npm_source_of(spec) matches Some(source) ==> p.source == source
            &&& stores::npm_source_of(spec) is None ==> p.source == SourceModel::Git
        },
        stores::npm_source_of(spec) is None && crate::git_source::git_source_of(spec) is None
            ==> discovery::missing_of(places, spec, scope, filter) == Ok::<
            Option<PackageModel>,
            Seq<char>,
        >(None),
{
}

/// Of the places where a package can be, the first one counts that is a
/// directory, or a `package.json`, which stands for its directory.
pub proof fn lemma_first_place_counts(fs: Seq<EntryModel>, candidates: Seq<PathModel>, k: int)
    requires
        0 <= k <= candidates.len(),
        forall|j: int|
            0 <= j < k ==> !paths::dir_at(fs, #[trigger] candidates[j]) && !(paths::file_at(
                fs,
                candidates[j],
            ) && paths::name_of(candidates[j]) == Some("package.json"@)),
    ensures
        k == candidates.len() ==> packages::settled_on(fs, candidates, 0) is None,
        k < candidates.len() && paths::dir_at(fs, candidates[k]) ==> packages::settled_on(
            fs,
            candidates,
            0,
        ) == Some(candidates[k]),
        k < candidates.len() && paths::file_at(fs, candidates[k]) && paths::name_of(candidates[k])
            == Some("package.json"@) ==> packages::settled_on(fs, candidates, 0)
            == paths::parent_of(candidates[k]),
{
    lemma_settled(fs, candidates, 0, k);
}

proof fn lemma_settled(fs: Seq<EntryModel>, candidates: Seq<PathModel>, i: int, k: int)
    requires
        0 <= i <= k <= candidates.len(),
        forall|j: int|
            i <= j < k ==> !paths::dir_at(fs, #[trigger] candidates[j]) && !(paths::file_at(
                fs,
                candidates[j],
            ) && paths::name_of(candidates[j]) == Some("package.json"@)),
    ensures
        packages::settled_on(fs, candidates, i) == packages::settled_on(fs, candidates, k),
    decreases k - i,
{
    if i < k {
        lemma_settled(fs, candidates, i + 1, k);
    }
}

proof fn lemma_position(keys: Seq<Seq<char>>, key: Seq<char>, i: int)
    requires
        0 <= i,
    ensures
        match discovery::position_of(keys, key, i) {
            Some(k) => i <= k < keys.len() && keys[k] == key,
            None => forall|k: int| i <= k < keys.len() ==> #[trigger] keys[k] != key,
        },
    decreases keys.len() - i,
{
    if i < keys.len() && keys[i] != key {
        lemma_position(keys, key, i + 1);
    }
}

proof fn lemma_merge_keeps(fs: Seq<EntryModel>, all: Seq<PackageModel>, n: int, k: int)
    requires
        0 <= k < n <= all.len(),
        !all[k].autoload_delta,
        forall|j: int|
            0 <= j < k ==> packages::identity_of(fs, #[trigger] all[j]) != packages::identity_of(
                fs,
                all[k],
            ),
    ensures
        ({
            let m = discovery::merged_packages(fs, all, n);
            &&& m.packages.len() == m.identities.len()
            &&& exists|i: int|
                0 <= i < m.packages.len() && #[trigger] m.packages[i] == all[k] && m.identities[i]
                    == packages::identity_of(fs, all[k]) && forall|j: int|
                    0 <= j < i ==> m.identities[j] != m.identities[i]
        }),
    decreases n,
{
    let p = all[n - 1];
    let identity = packages::identity_of(fs, p);
    let key = packages::identity_of(fs, all[k]);
    let m = discovery::merged_packages(fs, all, n - 1);
    let out = discovery::merged_packages(fs, all, n);
    lemma_position(m.identities, identity, 0);
    if k < n - 1 {
        lemma_merge_keeps(fs, all, n - 1, k);
        let i = choose|i: int|
            0 <= i < m.packages.len() && #[trigger] m.packages[i] == all[k] && m.identities[i]
                == key && forall|j: int| 0 <= j < i ==> m.identities[j] != m.identities[i];
        assert(out.packages[i] == all[k] && out.identities[i] == key) by {
            if let Some(at) = discovery::position_of(m.identities, identity, 0) {
                if at == i {
                    assert(!m.packages[i].autoload_delta);
                }
            }
        }
    } else {
        lemma_merge_from(fs, all, n - 1);
        if let Some(at) = discovery::position_of(m.identities, identity, 0) {
            assert(stems_from(fs, all, n - 1, m.identities[at]));
            let j = choose|j: int|
                0 <= j < n - 1 && packages::identity_of(fs, #[trigger] all[j])
                    == m.identities[at];
            assert(packages::identity_of(fs, all[j]) == identity);
        }
        let i = m.packages.len() as int;
        assert(out.packages[i] == p);
    }
}

/// Whether one of the first `n` packages has the identity `key`.
spec fn stems_from(fs: Seq<EntryModel>, all: Seq<PackageModel>, n: int, key: Seq<char>) -> bool {
    exists|j: int| 0 <= j < n && packages::identity_of(fs, #[trigger] all[j]) == key
}

proof fn lemma_merge_from(fs: Seq<EntryModel>, all: Seq<PackageModel>, n: int)
    requires
        0 <= n <= all.len(),
    ensures
        ({
            let m = discovery::merged_packages(fs, all, n);
            &&& m.packages.len() == m.identities.len()
            &&& forall|i: int|
                0 <= i < m.identities.len() ==> stems_from(fs, all, n, #[trigger] m.identities[i])
        }),
    decreases n,
{
    if n > 0 {
        lemma_merge_from(fs, all, n - 1);
        let m = discovery::merged_packages(fs, all, n - 1);
        lemma_position(m.identities, packages::identity_of(fs, all[n - 1]), 0);
        let out = discovery::merged_packages(fs, all, n);
        assert forall|i: int| 0 <= i < out.identities.len() implies stems_from(
            fs,
            all,
            n,
            #[trigger] out.identities[i],
        ) by {
            if i < m.identities.len() {
                assert(stems_from(fs, all, n - 1, m.identities[i]));
                let j = choose|j: int|
                    0 <= j < n - 1 && packages::identity_of(fs, #[trigger] all[j])
                        == m.identities[i];
                assert(packages::identity_of(fs, all[j]) == out.identities[i]);
            } else {
                assert(packages::identity_of(fs, all[n - 1]) == out.identities[i]);
            }
        }
    }
}

/// Where the project and the user both have a package, the project's counts,
/// unless it only changes that of the user; a package of the user that the
/// project does not have counts as it is.
pub proof fn lemma_project_comes_first(
    fs: Seq<EntryModel>,
    project: ResourcesModel,
    user: ResourcesModel,
    k: int,
)
    requires
        0 <= k < (project.packages + user.packages).len(),
        !(project.packages + user.packages)[k].autoload_delta,
        forall|j: int|
            0 <= j < k ==> packages::identity_of(
                fs,
                #[trigger] (project.packages + user.packages)[j],
            ) != packages::identity_of(fs, (project.packages + user.packages)[k]),
    ensures
        discovery::merged(fs, project, user).packages.contains(
            (project.packages + user.packages)[k],
        ),
        discovery::merged(fs, project, user).diagnostics == project.diagnostics
            + user.diagnostics,
{
    let all = project.packages + user.packages;
    lemma_merge_keeps(fs, all, all.len() as int, k);
    let m = discovery::merged_packages(fs, all, all.len() as int);
    let i = choose|i: int|
        0 <= i < m.packages.len() && #[trigger] m.packages[i] == all[k] && m.identities[i]
            == packages::identity_of(fs, all[k]) && forall|j: int|
            0 <= j < i ==> m.identities[j] != m.identities[i];
    assert(m.packages[i] == all[k]);
}

/// Packages from the registry are told apart by their names, without regard
/// to case; and no package from one kind of source is taken for one from
/// another.
pub proof fn lemma_identities_tell_apart(fs: Seq<EntryModel>, p: PackageModel, q: PackageModel)
    ensures
        p.source is Npm && q.source is Npm ==> (packages::identity_of(fs, p)
            == packages::identity_of(fs, q) <==> text::lower_of(p.source->name) == text::lower_of(
            q.source->name,
        )),
        p.source is Npm && !(q.source is Npm) ==> packages::identity_of(fs, p)
            != packages::identity_of(fs, q),
        p.source is Local && q.source is Git ==> packages::identity_of(fs, p)
            != packages::identity_of(fs, q),
        p.source is Git && q.source is Git && p.spec == q.spec && crate::git_source::git_source_of(
            p.spec,
        ) is Some ==> packages::identity_of(fs, p) == packages::identity_of(fs, q),
{
    reveal_strlit("npm:");
    reveal_strlit("git:");
    reveal_strlit("git:path:");
    reveal_strlit("local:");
    reveal_strlit("unknown:");
    let a = packages::identity_of(fs, p);
    let b = packages::identity_of(fs, q);
    if p.source is Npm && q.source is Npm {
        assert(a.skip(4) =~= text::lower_of(p.source->name));
        assert(b.skip(4) =~= text::lower_of(q.source->name));
    }
    if p.source is Npm {
        assert(a[0] == 'n');
    }
    if q.source is Git {
        assert(b[0] == 'g');
    }
    if q.source is Local {
        assert(b[0] == 'l');
    }
    if q.source is Unknown {
        assert(b[0] == 'u');
    }
    if p.source is Local {
        assert(a[0] == 'l');
    }
}

} // verus!
