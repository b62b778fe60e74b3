//! How a release goes on.

use vstd::prelude::*;

use crate::npm_command::Platform;
use crate::release::{CRATE_COUNT, WaitModel};
use crate::release_sequence::{
    dry_run_step, release_step, DryRunActionModel, DryRunEventModel, DryRunModel, DryRunStage,
    EventModel, ReleaseStage, SequenceModel, TaskModel,
};

verus! {

/// A release goes on to the next crate where the index has the crate that it
/// is at, and in no other case; it is done after the last crate and not
/// before.
pub proof fn lemma_next_crate_waits_for_the_index(
    s: SequenceModel,
    version: Seq<char>,
    event: EventModel,
)
    requires
        0 <= s.at < CRATE_COUNT,
    ensures
        ({
            let there = s.stage == ReleaseStage::Looking && event == EventModel::Index(
                WaitModel::Resolvable,
            );
            let (after, action) = release_step(s, version, event);
            &&& there ==> after.at == s.at + 1 && after.looks == 0
            &&& !there ==> after.at == s.at
            &&& action.task is Done <==> there && s.at + 1 == CRATE_COUNT
            &&& there && s.at + 1 < CRATE_COUNT ==> after.stage == ReleaseStage::Asking
        }),
{
}

/// While the index lacks a crate the release stays with it and looks again; it
/// publishes nothing meanwhile.
pub proof fn lemma_index_is_looked_at_again(
    s: SequenceModel,
    version: Seq<char>,
    look: WaitModel,
)
    requires
        s.stage == ReleaseStage::Looking,
        look is Again,
    ensures
        ({
            let (after, action) = release_step(s, version, EventModel::Index(look));
            &&& after.at == s.at
            &&& after.stage == ReleaseStage::Looking
            &&& s.looks < u64::MAX ==> after.looks == s.looks + 1
            &&& action.task matches TaskModel::LookAtIndex { again, .. } && again
            &&& action.said is Some
        }),
{
}

/// A crate is published once what the registry has of it was learned, and at
/// no other time; after the publication the index is looked at.
pub proof fn lemma_publication_follows_a_question(
    s: SequenceModel,
    version: Seq<char>,
    event: EventModel,
)
    ensures
        release_step(s, version, event).1.task is Publish ==> s.stage == ReleaseStage::Asking && (
        event matches EventModel::State(r) && r is Ok),
        s.stage == ReleaseStage::Publishing && (event matches EventModel::Published(r) && r is Ok)
            ==> release_step(s, version, event).1.task is LookAtIndex,
        s.stage == ReleaseStage::Over ==> release_step(s, version, event).0 == s && release_step(
            s,
            version,
            event,
        ).1.task is Nothing,
{
}

/// A trial goes on to the next crate where that of this crate went through,
/// and in no other case; what goes wrong ends it.
pub proof fn lemma_trial_goes_on(
    s: DryRunModel,
    root: Seq<char>,
    platform: Platform,
    event: DryRunEventModel,
)
    requires
        0 <= s.at < CRATE_COUNT,
    ensures
        ({
            let through = s.stage == DryRunStage::Running && (event matches DryRunEventModel::Ran(r)
                && r is Ok);
            let (after, action) = dry_run_step(s, root, platform, event);
            &&& through ==> after.at == s.at + 1
            &&& !through ==> after.at == s.at
            &&& action is Done <==> through && s.at + 1 == CRATE_COUNT
            &&& action is Run ==> s.stage == DryRunStage::Reading
            &&& (event matches DryRunEventModel::Ran(r) && r is Err) && s.stage
                == DryRunStage::Running ==> action is Fail && after.stage == DryRunStage::Over
            &&& (event matches DryRunEventModel::Manifest(r) && r is Err) && s.stage
                == DryRunStage::Reading ==> action is Fail && after.stage == DryRunStage::Over
        }),
{
}

} // verus!
