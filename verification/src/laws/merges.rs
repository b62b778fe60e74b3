//! How the project's and the user's packages are put together.

use vstd::prelude::*;

use crate::discovery;
use crate::packages;
use crate::packages::PackageModel;
use crate::paths;
use crate::paths::{EntryModel, PathModel};
use crate::stores::{PlacesModel, ResolveScope};

verus! {

/// Two entries for different packages are both kept, in order. Of two for one
/// package the first counts; but where the first only changes what is loaded
/// and the second is the user's, the user's package is kept with the change.
pub proof fn lemma_two_entries_for_one_package(
    fs: Seq<EntryModel>,
    p: PackageModel,
    q: PackageModel,
)
    ensures
        ({
            let merged = discovery::merged_packages(fs, seq![p, q], 2).packages;
            let same = packages::identity_of(fs, p) == packages::identity_of(fs, q);
            let changes = p.autoload_delta && q.scope == ResolveScope::User;
            &&& !same ==> merged == seq![p, q]
            &&& same && !changes ==> merged == seq![p]
            &&& same && changes && p.filter is None ==> merged == seq![q]
            &&& same && changes ==> (p.filter matches Some(f) ==> merged == seq![
                discovery::with_delta(fs, q, f),
            ])
        }),
{
    let both = seq![p, q];
    assert(both[0] == p && both[1] == q);
    let none = discovery::merged_packages(fs, both, 0);
    let first = discovery::merged_packages(fs, both, 1);
    assert(first == discovery::after_merge(fs, p, none));
    assert(first.packages =~= seq![p]);
    assert(first.identities =~= seq![packages::identity_of(fs, p)]);
    let merged = discovery::merged_packages(fs, both, 2);
    assert(merged == discovery::after_merge(fs, q, first));
    let id = packages::identity_of(fs, q);
    assert(discovery::position_of(first.identities, id, 0) == (if first.identities[0] == id {
        Some(0int)
    } else {
        discovery::position_of(first.identities, id, 1)
    }));
    if packages::identity_of(fs, p) != id {
        assert(merged.packages =~= seq![p, q]);
    } else if p.autoload_delta && q.scope == ResolveScope::User {
        match p.filter {
            Some(f) => {
                assert(merged.packages =~= seq![discovery::with_delta(fs, q, f)]);
            },
            None => {
                assert(merged.packages =~= seq![q]);
            },
        }
    }
}

/// An npm package of the project is sought below the project alone, one of the
/// user outside it; without a restriction both are, the project's first.
pub proof fn lemma_targets_look_apart(a: PlacesModel, b: PlacesModel, name: Seq<char>)
    ensures
        a.cwd == b.cwd ==> discovery::npm_targets(a, ResolveScope::Project, name)
            == discovery::npm_targets(b, ResolveScope::Project, name),
        a.agent == b.agent && a.home == b.home ==> discovery::npm_targets(
            a,
            ResolveScope::User,
            name,
        ) == discovery::npm_targets(b, ResolveScope::User, name),
        discovery::npm_targets(a, ResolveScope::Any, name) == discovery::npm_targets(
            a,
            ResolveScope::Project,
            name,
        ) + discovery::npm_targets(a, ResolveScope::User, name),
{
    assert(a.cwd == b.cwd ==> discovery::npm_targets(a, ResolveScope::Project, name)
        =~= discovery::npm_targets(b, ResolveScope::Project, name));
    assert(a.agent == b.agent && a.home == b.home ==> discovery::npm_targets(
        a,
        ResolveScope::User,
        name,
    ) =~= discovery::npm_targets(b, ResolveScope::User, name));
    assert(discovery::npm_targets(a, ResolveScope::Any, name) =~= discovery::npm_targets(
        a,
        ResolveScope::Project,
        name,
    ) + discovery::npm_targets(a, ResolveScope::User, name));
}

/// What the project manages lies below the project; what the user manages lies
/// below the agent's directory, and nowhere where there is none.
pub proof fn lemma_managed_roots(
    places: PlacesModel,
    scope: ResolveScope,
    project: Seq<char>,
    user: Seq<char>,
)
    ensures
        ({
            let root = discovery::managed_root(places, scope, project, user);
            &&& scope == ResolveScope::Project ==> root == Ok::<PathModel, Seq<char>>(
                paths::below(places.cwd, project),
            )
            &&& scope != ResolveScope::Project ==> (root is Ok <==> places.agent is Ok)
            &&& scope != ResolveScope::Project ==> (places.agent matches Ok(agent) ==> root == Ok::<
                PathModel,
                Seq<char>,
            >(paths::below(agent, user)))
        }),
{
}

} // verus!
