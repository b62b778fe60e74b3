//! What an update does about each package.

use vstd::prelude::*;

use crate::laws::plans;
use crate::packages::PackageModel;
use crate::paths::EntryModel;
use crate::runtime_plan;
use crate::runtime_plan::InstallModel;
use crate::stores::PlacesModel;
use crate::update;
use crate::update::{JobModel, StepModel, WorkModel};

verus! {

/// Whether the work sees to a package: one that npm updates is installed anew
/// in its root or by itself, a checkout is updated, and any other is told of
/// and counted as skipped. One that cannot be planned is told of and counted
/// as failed.
pub open spec fn seen_to(
    fs: Seq<EntryModel>,
    places: PlacesModel,
    trusted: bool,
    p: PackageModel,
    w: WorkModel,
) -> bool {
    match update::updateable_npm(p) {
        Some((name, spec)) => match runtime_plan::store_root_of(p, places, trusted) {
            Ok(Some(root)) => plans::root_installs(
                w.roots,
                root,
                InstallModel { name, spec, identity: seq![] },
            ),
            Ok(None) => w.standalone.contains(
                StepModel::Run(
                    JobModel::Standalone { root: p.root, display_name: p.name, name, spec },
                ),
            ),
            Err(_) => w.failed > 0 && w.lines.len() > 0,
        },
        None => if p.source is Git {
            w.git.contains(update::git_step(fs, places, p).0)
        } else {
            w.skipped > 0 && w.lines.len() > 0
        },
    }
}

proof fn lemma_still_there(s: Seq<StepModel>, more: StepModel, x: StepModel)
    ensures
        s.contains(x) ==> s.push(more).contains(x),
        s.push(more).contains(more),
{
    if s.contains(x) {
        let k = choose|k: int| 0 <= k < s.len() && s[k] == x;
        assert(s.push(more)[k] == x);
    }
    assert(s.push(more)[s.len() as int] == more);
}

proof fn lemma_stays_seen_to(
    fs: Seq<EntryModel>,
    places: PlacesModel,
    trusted: bool,
    p: PackageModel,
    q: PackageModel,
    w: WorkModel,
)
    ensures
        seen_to(fs, places, trusted, p, w) ==> seen_to(
            fs,
            places,
            trusted,
            p,
            update::after_work(fs, places, trusted, q, w),
        ),
        seen_to(fs, places, trusted, q, update::after_work(fs, places, trusted, q, w)),
{
    let after = update::after_work(fs, places, trusted, q, w);
    match update::updateable_npm(q) {
        Some((name, spec)) => match runtime_plan::store_root_of(q, places, trusted) {
            Ok(Some(root)) => {
                let install = InstallModel { name, spec, identity: seq![] };
                plans::lemma_with_install(w.roots, root, install, root, install);
                if let Some((n, s)) = update::updateable_npm(p) {
                    if let Ok(Some(other)) = runtime_plan::store_root_of(p, places, trusted) {
                        plans::lemma_with_install(
                            w.roots,
                            root,
                            install,
                            other,
                            InstallModel { name: n, spec: s, identity: seq![] },
                        );
                    }
                }
            },
            Ok(None) => {
                let step = StepModel::Run(
                    JobModel::Standalone { root: q.root, display_name: q.name, name, spec },
                );
                lemma_still_there(w.standalone, step, step);
                if let Some((n, s)) = update::updateable_npm(p) {
                    lemma_still_there(
                        w.standalone,
                        step,
                        StepModel::Run(
                            JobModel::Standalone {
                                root: p.root,
                                display_name: p.name,
                                name: n,
                                spec: s,
                            },
                        ),
                    );
                }
            },
            Err(_) => {},
        },
        None => {
            if q.source is Git {
                let step = update::git_step(fs, places, q).0;
                lemma_still_there(w.git, step, step);
                lemma_still_there(w.git, step, update::git_step(fs, places, p).0);
            }
        },
    }
}

/// An update sees to each package that it is given.
pub proof fn lemma_update_sees_to_each(
    fs: Seq<EntryModel>,
    places: PlacesModel,
    trusted: bool,
    list: Seq<PackageModel>,
    n: int,
    i: int,
)
    requires
        0 <= i < n <= list.len(),
    ensures
        seen_to(fs, places, trusted, list[i], update::work_of(fs, places, trusted, list, n)),
    decreases n,
{
    let w = update::work_of(fs, places, trusted, list, n - 1);
    lemma_stays_seen_to(fs, places, trusted, list[i], list[n - 1], w);
    if i < n - 1 {
        lemma_update_sees_to_each(fs, places, trusted, list, n - 1, i);
    }
}

/// How many of the first `n` packages an update leaves alone.
pub open spec fn left_alone(list: Seq<PackageModel>, n: int) -> nat
    decreases n,
{
    if n <= 0 {
        0
    } else {
        left_alone(list, n - 1) + if update::updateable_npm(list[n - 1]) is None && !(list[n
            - 1].source is Git) {
            1nat
        } else {
            0nat
        }
    }
}

/// As many packages are counted as skipped as the update leaves alone.
pub proof fn lemma_skipped_are_counted(
    fs: Seq<EntryModel>,
    places: PlacesModel,
    trusted: bool,
    list: Seq<PackageModel>,
    n: int,
)
    requires
        0 <= n <= list.len(),
    ensures
        update::work_of(fs, places, trusted, list, n).skipped == left_alone(list, n),
    decreases n,
{
    if n > 0 {
        lemma_skipped_are_counted(fs, places, trusted, list, n - 1);
    }
}

} // verus!
