//! The order of a release: which crate is looked at, published and waited for
//! next, and when the release ends.

use vstd::prelude::*;

use crate::npm_command::Platform;
use crate::release;
use crate::release::{
    PublishModel, PublishStep, PublishedVersion, WaitModel, WaitStep, CRATE_COUNT,
};
use crate::text;

verus! {

/// How long, in seconds, the index is waited for.
pub const INDEX_WAIT_SECONDS: u64 = 600;

/// How long, in seconds, to wait before the index is looked at again.
pub const INDEX_INTERVAL_SECONDS: u64 = 10;

/// What a release waits for.
#[derive(Debug, Clone, Copy, PartialEq, Eq, Structural)]
pub enum ReleaseStage {
    /// The check of the working tree.
    Validating,
    /// The check that curl is there.
    FindingCurl,
    /// What the registry has of the crate.
    Asking,
    /// The publication of the crate.
    Publishing,
    /// A look at the index.
    Looking,
    /// Nothing: the release is over.
    Over,
}

/// A release under way.
pub struct Release {
    /// The crate that the release is at, in the order of the release.
    pub at: usize,
    pub stage: ReleaseStage,
    /// How often the index was looked at for this crate.
    pub looks: u64,
}

/// The model of `Release`.
#[verifier::ext_equal]
pub struct SequenceModel {
    pub at: int,
    pub stage: ReleaseStage,
    pub looks: nat,
}

impl View for Release {
    type V = SequenceModel;

    open spec fn view(&self) -> SequenceModel {
        SequenceModel { at: self.at as int, stage: self.stage, looks: self.looks as nat }
    }
}

/// What came of the last action.
pub enum ReleaseEvent {
    Validated(Result<(), String>),
    Curl(Result<(), String>),
    State(Result<PublishedVersion, String>),
    Published(Result<(), String>),
    Index(WaitStep),
}

/// The model of `ReleaseEvent`.
pub enum EventModel {
    Validated(Result<(), Seq<char>>),
    Curl(Result<(), Seq<char>>),
    State(Result<PublishedVersion, Seq<char>>),
    Published(Result<(), Seq<char>>),
    Index(WaitModel),
}

/// The view of an outcome.
pub open spec fn outcome_view(r: Result<(), String>) -> Result<(), Seq<char>> {
    match r {
        Ok(_) => Ok(()),
        Err(m) => Err(m@),
    }
}

impl View for ReleaseEvent {
    type V = EventModel;

    open spec fn view(&self) -> EventModel {
        match self {
            ReleaseEvent::Validated(r) => EventModel::Validated(outcome_view(*r)),
            ReleaseEvent::Curl(r) => EventModel::Curl(outcome_view(*r)),
            ReleaseEvent::State(r) => EventModel::State(
                match *r {
                    Ok(state) => Ok(state),
                    Err(m) => Err(m@),
                },
            ),
            ReleaseEvent::Published(r) => EventModel::Published(outcome_view(*r)),
            ReleaseEvent::Index(step) => EventModel::Index(step@),
        }
    }
}

/// What to do next.
pub enum ReleaseTask {
    /// See that curl is there.
    FindCurl,
    /// Ask the registry about a crate.
    AskState { crate_name: String },
    /// Run cargo with these arguments, which publish a crate.
    Publish { crate_name: String, args: Vec<String> },
    /// Look at the index for a crate; `again` where it was looked at before.
    LookAtIndex { crate_name: String, again: bool },
    /// All crates are released.
    Done,
    /// The release failed.
    Fail(String),
    /// The event was none that the release waits for.
    Nothing,
}

/// The model of `ReleaseTask`.
pub enum TaskModel {
    FindCurl,
    AskState { crate_name: Seq<char> },
    Publish { crate_name: Seq<char>, args: Seq<Seq<char>> },
    LookAtIndex { crate_name: Seq<char>, again: bool },
    Done,
    Fail(Seq<char>),
    Nothing,
}

impl View for ReleaseTask {
    type V = TaskModel;

    open spec fn view(&self) -> TaskModel {
        match self {
            ReleaseTask::FindCurl => TaskModel::FindCurl,
            ReleaseTask::AskState { crate_name } => TaskModel::AskState {
                crate_name: crate_name@,
            },
            ReleaseTask::Publish { crate_name, args } => TaskModel::Publish {
                crate_name: crate_name@,
                args: text::texts(args@),
            },
            ReleaseTask::LookAtIndex { crate_name, again } => TaskModel::LookAtIndex {
                crate_name: crate_name@,
                again: *again,
            },
            ReleaseTask::Done => TaskModel::Done,
            ReleaseTask::Fail(m) => TaskModel::Fail(m@),
            ReleaseTask::Nothing => TaskModel::Nothing,
        }
    }
}

/// The next action of a release: a line to print first, and what to do.
pub struct ReleaseAction {
    pub said: Option<String>,
    pub task: ReleaseTask,
}

/// The model of `ReleaseAction`.
pub struct ActionModel {
    pub said: Option<Seq<char>>,
    pub task: TaskModel,
}

impl View for ReleaseAction {
    type V = ActionModel;

    open spec fn view(&self) -> ActionModel {
        ActionModel { said: text::opt_text(self.said), task: self.task@ }
    }
}

/// A release that is about to start.
pub open spec fn begun() -> SequenceModel {
    SequenceModel { at: 0, stage: ReleaseStage::Validating, looks: 0 }
}

/// An action without a line.
pub open spec fn quietly(task: TaskModel) -> ActionModel {
    ActionModel { said: None, task }
}

/// A release at another stage, with the action that leads there.
pub open spec fn moved(
    s: SequenceModel,
    stage: ReleaseStage,
    said: Option<Seq<char>>,
    task: TaskModel,
) -> (SequenceModel, ActionModel) {
    (SequenceModel { stage, ..s }, ActionModel { said, task })
}

/// A release that failed.
pub open spec fn failed(s: SequenceModel, message: Seq<char>) -> (SequenceModel, ActionModel) {
    moved(s, ReleaseStage::Over, None, TaskModel::Fail(message))
}

/// One look more, as far as they are counted.
pub open spec fn counted(looks: nat) -> nat {
    if looks < u64::MAX {
        looks + 1
    } else {
        looks
    }
}

/// What is said before the index is looked at again.
pub open spec fn waiting_text(crate_name: Seq<char>, version: Seq<char>, looks: nat) -> Seq<char> {
    "Waiting for crates.io index propagation ("@ + crate_name + " "@ + version + ", attempt "@
        + text::digits_of(looks) + ")..."@
}

/// What is said of a crate that the index has.
pub open spec fn resolvable_text(crate_name: Seq<char>, version: Seq<char>) -> Seq<char> {
    crate_name + " "@ + version + " is resolvable from the crates.io sparse index."@
}

/// What is said where a crate could not be published.
pub open spec fn failure_text(
    crate_name: Seq<char>,
    version: Seq<char>,
    error: Seq<char>,
) -> Seq<char> {
    "cargo publish failed for "@ + crate_name + " "@ + version + ": "@ + error
        + ". Re-run task publish after resolving the error; published versions will be skipped"@
}

/// A release after what the registry has of its crate was learned.
pub open spec fn after_state(
    s: SequenceModel,
    crate_name: Seq<char>,
    version: Seq<char>,
    state: PublishedVersion,
) -> (SequenceModel, ActionModel) {
    match release::publish_of(crate_name, version, state) {
        PublishModel::Skip(said) => moved(
            s,
            ReleaseStage::Looking,
            Some(said),
            TaskModel::LookAtIndex { crate_name, again: false },
        ),
        PublishModel::Refuse(message) => failed(s, message),
        PublishModel::Publish(said, args) => moved(
            s,
            ReleaseStage::Publishing,
            Some(said),
            TaskModel::Publish { crate_name, args },
        ),
    }
}

/// A release after a look at the index: where the crate is there, the next
/// crate follows, and after the last the release is done.
pub open spec fn after_look(
    s: SequenceModel,
    crate_name: Seq<char>,
    version: Seq<char>,
    look: WaitModel,
) -> (SequenceModel, ActionModel) {
    match look {
        WaitModel::GiveUp(message) => failed(s, message),
        WaitModel::Again(_) => (
            SequenceModel { looks: counted(s.looks), ..s },
            ActionModel {
                said: Some(waiting_text(crate_name, version, counted(s.looks))),
                task: TaskModel::LookAtIndex { crate_name, again: true },
            },
        ),
        WaitModel::Resolvable => {
            let said = Some(resolvable_text(crate_name, version));
            if s.at + 1 < CRATE_COUNT {
                (
                    SequenceModel { at: s.at + 1, stage: ReleaseStage::Asking, looks: 0 },
                    ActionModel {
                        said,
                        task: TaskModel::AskState { crate_name: release::crate_of(s.at + 1).0 },
                    },
                )
            } else {
                (
                    SequenceModel { at: s.at + 1, stage: ReleaseStage::Over, looks: 0 },
                    ActionModel { said, task: TaskModel::Done },
                )
            }
        },
    }
}

/// A release after an event, and its next action. The crates come one after
/// the other in the order of the release; the first thing that goes wrong
/// ends it.
pub open spec fn release_step(s: SequenceModel, version: Seq<char>, event: EventModel) -> (
    SequenceModel,
    ActionModel,
) {
    let crate_name = release::crate_of(s.at).0;
    match (s.stage, event) {
        (ReleaseStage::Validating, EventModel::Validated(r)) => match r {
            Err(message) => failed(s, message),
            Ok(_) => moved(s, ReleaseStage::FindingCurl, None, TaskModel::FindCurl),
        },
        (ReleaseStage::FindingCurl, EventModel::Curl(r)) => match r {
            Err(message) => failed(
                s,
                "curl is required before publishing any crate: "@ + message,
            ),
            Ok(_) => moved(s, ReleaseStage::Asking, None, TaskModel::AskState { crate_name }),
        },
        (ReleaseStage::Asking, EventModel::State(r)) => match r {
            Err(message) => failed(s, message),
            Ok(state) => after_state(s, crate_name, version, state),
        },
        (ReleaseStage::Publishing, EventModel::Published(r)) => match r {
            Err(message) => failed(s, failure_text(crate_name, version, message)),
            Ok(_) => moved(
                s,
                ReleaseStage::Looking,
                None,
                TaskModel::LookAtIndex { crate_name, again: false },
            ),
        },
        (ReleaseStage::Looking, EventModel::Index(look)) => after_look(
            s,
            crate_name,
            version,
            look,
        ),
        _ => (s, quietly(TaskModel::Nothing)),
    }
}

fn quiet(task: ReleaseTask) -> (a: ReleaseAction)
    ensures
        a@ == quietly(task@),
{
    ReleaseAction { said: None, task }
}

fn loud(said: String, task: ReleaseTask) -> (a: ReleaseAction)
    ensures
        a@ == (ActionModel { said: Some(said@), task: task@ }),
{
    ReleaseAction { said: Some(said), task }
}

impl Release {
    /// Whether the release is at one of the crates, or past the last.
    pub open spec fn is_sound(self) -> bool {
        self.at <= CRATE_COUNT && (self.at == CRATE_COUNT ==> self.stage == ReleaseStage::Over)
    }

    /// A release that is about to start: it waits for the check of the
    /// working tree.
    pub fn begin() -> (r: Release)
        ensures
            r@ == begun(),
            r.is_sound(),
    {
        Release { at: 0, stage: ReleaseStage::Validating, looks: 0 }
    }

    fn fail(&mut self, message: String) -> (a: ReleaseAction)
        requires
            old(self).at < CRATE_COUNT,
        ensures
            (final(self)@, a@) == failed(old(self)@, message@),
            final(self).is_sound(),
    {
        self.stage = ReleaseStage::Over;
        quiet(ReleaseTask::Fail(message))
    }

    fn learn_state(&mut self, crate_name: &str, version: &str, state: PublishedVersion) -> (a:
        ReleaseAction)
        requires
            old(self).at < CRATE_COUNT,
        ensures
            (final(self)@, a@) == after_state(old(self)@, crate_name@, version@, state),
            final(self).is_sound(),
    {
        match release::publish_step(crate_name, version, state) {
            PublishStep::Skip(said) => {
                self.stage = ReleaseStage::Looking;
                loud(
                    said,
                    ReleaseTask::LookAtIndex { crate_name: crate_name.to_owned(), again: false },
                )
            },
            PublishStep::Refuse(message) => self.fail(message),
            PublishStep::Publish(said, args) => {
                self.stage = ReleaseStage::Publishing;
                loud(said, ReleaseTask::Publish { crate_name: crate_name.to_owned(), args })
            },
        }
    }

    fn learn_look(&mut self, crate_name: &str, version: &str, look: WaitStep) -> (a: ReleaseAction)
        requires
            old(self).at < CRATE_COUNT,
        ensures
            (final(self)@, a@) == after_look(old(self)@, crate_name@, version@, look@),
            old(self).stage == ReleaseStage::Looking ==> final(self).is_sound(),
    {
        match look {
            WaitStep::GiveUp(message) => self.fail(message),
            WaitStep::Again(_) => {
                if self.looks < u64::MAX {
                    self.looks = self.looks + 1;
                }
                let number = text::number_text(self.looks);
                let head = text::cat5(
                    "Waiting for crates.io index propagation (",
                    crate_name,
                    " ",
                    version,
                    ", attempt ",
                );
                loud(
                    text::cat3(head.as_str(), number.as_str(), ")..."),
                    ReleaseTask::LookAtIndex { crate_name: crate_name.to_owned(), again: true },
                )
            },
            WaitStep::Resolvable => {
                let said = text::cat4(
                    crate_name,
                    " ",
                    version,
                    " is resolvable from the crates.io sparse index.",
                );
                self.at = self.at + 1;
                self.looks = 0;
                if self.at < CRATE_COUNT {
                    self.stage = ReleaseStage::Asking;
                    let next = release::release_crate(self.at).0;
                    loud(said, ReleaseTask::AskState { crate_name: next.to_owned() })
                } else {
                    self.stage = ReleaseStage::Over;
                    loud(said, ReleaseTask::Done)
                }
            },
        }
    }

    /// Takes in what came of the last action, and says what to do next.
    pub fn step(&mut self, version: &str, event: ReleaseEvent) -> (action: ReleaseAction)
        requires
            old(self).is_sound(),
        ensures
            (final(self)@, action@) == release_step(old(self)@, version@, event@),
            final(self).is_sound(),
    {
        if self.at >= CRATE_COUNT {
            return quiet(ReleaseTask::Nothing);
        }
        let crate_name = release::release_crate(self.at).0;
        match (self.stage, event) {
            (ReleaseStage::Validating, ReleaseEvent::Validated(r)) => match r {
                Err(message) => self.fail(message),
                Ok(_) => {
                    self.stage = ReleaseStage::FindingCurl;
                    quiet(ReleaseTask::FindCurl)
                },
            },
            (ReleaseStage::FindingCurl, ReleaseEvent::Curl(r)) => match r {
                Err(message) => self.fail(
                    text::cat("curl is required before publishing any crate: ", message.as_str()),
                ),
                Ok(_) => {
                    self.stage = ReleaseStage::Asking;
                    quiet(ReleaseTask::AskState { crate_name: crate_name.to_owned() })
                },
            },
            (ReleaseStage::Asking, ReleaseEvent::State(r)) => match r {
                Err(message) => self.fail(message),
                Ok(state) => self.learn_state(crate_name, version, state),
            },
            (ReleaseStage::Publishing, ReleaseEvent::Published(r)) => match r {
                Err(message) => self.fail(
                    release::publish_failure(crate_name, version, message.as_str()),
                ),
                Ok(_) => {
                    self.stage = ReleaseStage::Looking;
                    quiet(
                        ReleaseTask::LookAtIndex {
                            crate_name: crate_name.to_owned(),
                            again: false,
                        },
                    )
                },
            },
            (ReleaseStage::Looking, ReleaseEvent::Index(look)) => self.learn_look(
                crate_name,
                version,
                look,
            ),
            _ => quiet(ReleaseTask::Nothing),
        }
    }
}

/// The release after the first `n` of `events`.
pub open spec fn after_events(version: Seq<char>, events: Seq<EventModel>, n: int) -> SequenceModel
    decreases n,
{
    if n <= 0 {
        begun()
    } else {
        release_step(after_events(version, events, n - 1), version, events[n - 1]).0
    }
}

/// The action that the `k`th of `events` leads to.
pub open spec fn action_at(version: Seq<char>, events: Seq<EventModel>, k: int) -> ActionModel {
    release_step(after_events(version, events, k), version, events[k]).1
}

/// Whether one of the first `n` of `events` says that the index has the crate
/// `i`, when the release was waiting for that.
pub open spec fn resolved_by(version: Seq<char>, events: Seq<EventModel>, n: int, i: int) -> bool {
    exists|k: int|
        0 <= k < n && #[trigger] after_events(version, events, k).at == i && after_events(
            version,
            events,
            k,
        ).stage == ReleaseStage::Looking && events[k] == EventModel::Index(WaitModel::Resolvable)
}

/// What goes wrong in an event.
pub open spec fn goes_wrong(event: EventModel) -> bool {
    match event {
        EventModel::Validated(r) => r is Err,
        EventModel::Curl(r) => r is Err,
        EventModel::State(r) => r is Err || r == Ok::<PublishedVersion, Seq<char>>(
            PublishedVersion::Yanked,
        ),
        EventModel::Published(r) => r is Err,
        EventModel::Index(look) => look is GiveUp,
    }
}

/// Whether the release waits for an event of this kind.
pub open spec fn waits_for(stage: ReleaseStage, event: EventModel) -> bool {
    match event {
        EventModel::Validated(_) => stage == ReleaseStage::Validating,
        EventModel::Curl(_) => stage == ReleaseStage::FindingCurl,
        EventModel::State(_) => stage == ReleaseStage::Asking,
        EventModel::Published(_) => stage == ReleaseStage::Publishing,
        EventModel::Index(_) => stage == ReleaseStage::Looking,
    }
}

proof fn lemma_reached(version: Seq<char>, events: Seq<EventModel>, n: int)
    requires
        0 <= n <= events.len(),
    ensures
        0 <= after_events(version, events, n).at <= CRATE_COUNT,
        after_events(version, events, n).at == CRATE_COUNT ==> after_events(
            version,
            events,
            n,
        ).stage == ReleaseStage::Over,
        forall|i: int|
            0 <= i < after_events(version, events, n).at ==> #[trigger] resolved_by(
                version,
                events,
                n,
                i,
            ),
    decreases n,
{
    if n > 0 {
        lemma_reached(version, events, n - 1);
        let before = after_events(version, events, n - 1);
        let after = after_events(version, events, n);
        assert forall|i: int| 0 <= i < after.at implies #[trigger] resolved_by(
            version,
            events,
            n,
            i,
        ) by {
            if i < before.at {
                assert(resolved_by(version, events, n - 1, i));
                let k = choose|k: int|
                    0 <= k < n - 1 && #[trigger] after_events(version, events, k).at == i
                        && after_events(version, events, k).stage == ReleaseStage::Looking
                        && events[k] == EventModel::Index(WaitModel::Resolvable);
                assert(after_events(version, events, k).at == i);
            } else {
                assert(after_events(version, events, n - 1).at == i);
            }
        }
    }
}

/// A release takes up a crate, to ask about it, to publish it or to look for
/// it in the index, only once the index has every crate before it.
pub proof fn lemma_crates_come_in_order(version: Seq<char>, events: Seq<EventModel>, k: int)
    requires
        0 <= k < events.len(),
    ensures
        forall|i: int|
            0 <= i < after_events(version, events, k + 1).at ==> #[trigger] resolved_by(
                version,
                events,
                k + 1,
                i,
            ),
        match action_at(version, events, k).task {
            TaskModel::AskState { crate_name } => crate_name == release::crate_of(
                after_events(version, events, k + 1).at,
            ).0,
            TaskModel::Publish { crate_name, .. } => crate_name == release::crate_of(
                after_events(version, events, k + 1).at,
            ).0,
            TaskModel::LookAtIndex { crate_name, .. } => crate_name == release::crate_of(
                after_events(version, events, k + 1).at,
            ).0,
            _ => true,
        },
{
    lemma_reached(version, events, k + 1);
    assert(after_events(version, events, k + 1) == release_step(
        after_events(version, events, k),
        version,
        events[k],
    ).0);
}

/// A crate is published if and only if the registry was asked about it and
/// does not have its version; a version that is there is passed over, and the
/// index is looked at all the same.
pub proof fn lemma_publishes_what_is_missing(
    s: SequenceModel,
    version: Seq<char>,
    event: EventModel,
)
    ensures
        release_step(s, version, event).1.task is Publish <==> s.stage == ReleaseStage::Asking
            && event == EventModel::State(Ok(PublishedVersion::Missing)),
        s.stage == ReleaseStage::Asking && event == EventModel::State(
            Ok(PublishedVersion::Available),
        ) ==> release_step(s, version, event).1.task == (TaskModel::LookAtIndex {
            crate_name: release::crate_of(s.at).0,
            again: false,
        }),
        s.stage == ReleaseStage::Publishing && (event matches EventModel::Published(r) && r is Ok)
            ==> release_step(s, version, event).1.task == (TaskModel::LookAtIndex {
            crate_name: release::crate_of(s.at).0,
            again: false,
        }),
{
}

/// The first thing that goes wrong, a version that was taken back among it,
/// ends a release with a failure; and a release that is over does nothing any
/// more.
pub proof fn lemma_failure_ends_release(s: SequenceModel, version: Seq<char>, event: EventModel)
    ensures
        waits_for(s.stage, event) && goes_wrong(event) ==> {
            &&& release_step(s, version, event).0.stage == ReleaseStage::Over
            &&& release_step(s, version, event).1.task is Fail
        },
        release_step(s, version, event).1.task is Fail ==> goes_wrong(event),
        s.stage == ReleaseStage::Over ==> release_step(s, version, event) == (
            s,
            quietly(TaskModel::Nothing),
        ),
{
}

/// A release succeeds only after the index has every one of its crates.
pub proof fn lemma_success_needs_all(version: Seq<char>, events: Seq<EventModel>, k: int, i: int)
    requires
        0 <= k < events.len(),
        action_at(version, events, k).task is Done,
        0 <= i < CRATE_COUNT,
    ensures
        after_events(version, events, k + 1).at == CRATE_COUNT,
        resolved_by(version, events, k + 1, i),
{
    lemma_reached(version, events, k);
    lemma_reached(version, events, k + 1);
    assert(after_events(version, events, k + 1) == release_step(
        after_events(version, events, k),
        version,
        events[k],
    ).0);
}

/// What a dry run waits for.
#[derive(Debug, Clone, Copy, PartialEq, Eq, Structural)]
pub enum DryRunStage {
    Reading,
    Running,
    Over,
}

/// A dry run under way.
pub struct DryRun {
    /// The crate that the dry run is at, in the order of the release.
    pub at: usize,
    pub stage: DryRunStage,
}

/// The model of `DryRun`.
#[verifier::ext_equal]
pub struct DryRunModel {
    pub at: int,
    pub stage: DryRunStage,
}

impl View for DryRun {
    type V = DryRunModel;

    open spec fn view(&self) -> DryRunModel {
        DryRunModel { at: self.at as int, stage: self.stage }
    }
}

/// What came of the last action of a dry run.
pub enum DryRunEvent {
    /// The crate's manifest was read.
    Manifest(Result<String, String>),
    /// Cargo was run.
    Ran(Result<(), String>),
}

/// The model of `DryRunEvent`.
pub enum DryRunEventModel {
    Manifest(Result<Seq<char>, Seq<char>>),
    Ran(Result<(), Seq<char>>),
}

impl View for DryRunEvent {
    type V = DryRunEventModel;

    open spec fn view(&self) -> DryRunEventModel {
        match self {
            DryRunEvent::Manifest(r) => DryRunEventModel::Manifest(release::read_view(*r)),
            DryRunEvent::Ran(r) => DryRunEventModel::Ran(outcome_view(*r)),
        }
    }
}

/// The next action of a dry run.
pub enum DryRunAction {
    /// Read the manifest at this path.
    Read(String),
    /// Print the line, and run cargo with these arguments.
    Run(String, Vec<String>),
    Done,
    Fail(String),
    /// The event was none that the dry run waits for.
    Nothing,
}

/// The model of `DryRunAction`.
pub enum DryRunActionModel {
    Read(Seq<char>),
    Run(Seq<char>, Seq<Seq<char>>),
    Done,
    Fail(Seq<char>),
    Nothing,
}

impl View for DryRunAction {
    type V = DryRunActionModel;

    open spec fn view(&self) -> DryRunActionModel {
        match self {
            DryRunAction::Read(path) => DryRunActionModel::Read(path@),
            DryRunAction::Run(line, args) => DryRunActionModel::Run(line@, text::texts(args@)),
            DryRunAction::Done => DryRunActionModel::Done,
            DryRunAction::Fail(m) => DryRunActionModel::Fail(m@),
            DryRunAction::Nothing => DryRunActionModel::Nothing,
        }
    }
}

/// A dry run after an event, and its next action.
pub open spec fn dry_run_step(
    s: DryRunModel,
    root: Seq<char>,
    platform: Platform,
    event: DryRunEventModel,
) -> (DryRunModel, DryRunActionModel) {
    let over = DryRunModel { stage: DryRunStage::Over, ..s };
    let crate_name = release::crate_of(s.at).0;
    match (s.stage, event) {
        (DryRunStage::Reading, DryRunEventModel::Manifest(r)) => match r {
            Err(message) => (over, DryRunActionModel::Fail(message)),
            Ok(manifest) => {
                let args = release::dry_run_of(crate_name, manifest, root, platform);
                (
                    DryRunModel { stage: DryRunStage::Running, ..s },
                    DryRunActionModel::Run(release::notice_of(crate_name, args), args),
                )
            },
        },
        (DryRunStage::Running, DryRunEventModel::Ran(r)) => match r {
            Err(message) => (
                over,
                DryRunActionModel::Fail(
                    "cargo publish --dry-run failed for "@ + crate_name + ": "@ + message,
                ),
            ),
            Ok(_) => if s.at + 1 < CRATE_COUNT {
                (
                    DryRunModel { at: s.at + 1, stage: DryRunStage::Reading },
                    DryRunActionModel::Read(release::crate_of(s.at + 1).1),
                )
            } else {
                (
                    DryRunModel { at: s.at + 1, stage: DryRunStage::Over },
                    DryRunActionModel::Done,
                )
            },
        },
        _ => (s, DryRunActionModel::Nothing),
    }
}

impl DryRun {
    /// Whether the dry run is at one of the crates, or past the last.
    pub open spec fn is_sound(self) -> bool {
        self.at <= CRATE_COUNT && (self.at == CRATE_COUNT ==> self.stage == DryRunStage::Over)
    }

    /// A dry run that is about to start, with its first action.
    pub fn begin() -> (r: (DryRun, DryRunAction))
        ensures
            r.0@ == (DryRunModel { at: 0, stage: DryRunStage::Reading }),
            r.0.is_sound(),
            r.1@ == DryRunActionModel::Read(release::crate_of(0).1),
    {
        let path = release::release_crate(0).1;
        (DryRun { at: 0, stage: DryRunStage::Reading }, DryRunAction::Read(path.to_owned()))
    }

    /// Takes in what came of the last action, and says what to do next.
    pub fn step(&mut self, root: &str, platform: Platform, event: DryRunEvent) -> (action:
        DryRunAction)
        requires
            old(self).is_sound(),
        ensures
            (final(self)@, action@) == dry_run_step(old(self)@, root@, platform, event@),
            final(self).is_sound(),
    {
        if self.at >= CRATE_COUNT {
            return DryRunAction::Nothing;
        }
        let crate_name = release::release_crate(self.at).0;
        match (self.stage, event) {
            (DryRunStage::Reading, DryRunEvent::Manifest(r)) => match r {
                Err(message) => {
                    self.stage = DryRunStage::Over;
                    DryRunAction::Fail(message)
                },
                Ok(manifest) => {
                    let args = release::dry_run_args_on(
                        platform,
                        crate_name,
                        manifest.as_str(),
                        root,
                    );
                    let line = release::dry_run_notice(crate_name, args.as_slice());
                    self.stage = DryRunStage::Running;
                    DryRunAction::Run(line, args)
                },
            },
            (DryRunStage::Running, DryRunEvent::Ran(r)) => match r {
                Err(message) => {
                    self.stage = DryRunStage::Over;
                    DryRunAction::Fail(
                        text::cat4(
                            "cargo publish --dry-run failed for ",
                            crate_name,
                            ": ",
                            message.as_str(),
                        ),
                    )
                },
                Ok(_) => {
                    self.at = self.at + 1;
                    if self.at < CRATE_COUNT {
                        self.stage = DryRunStage::Reading;
                        DryRunAction::Read(release::release_crate(self.at).1.to_owned())
                    } else {
                        self.stage = DryRunStage::Over;
                        DryRunAction::Done
                    }
                },
            },
            _ => DryRunAction::Nothing,
        }
    }
}

/// The dry run after the first `n` of `events`.
pub open spec fn after_dry_events(
    root: Seq<char>,
    platform: Platform,
    events: Seq<DryRunEventModel>,
    n: int,
) -> DryRunModel
    decreases n,
{
    if n <= 0 {
        DryRunModel { at: 0, stage: DryRunStage::Reading }
    } else {
        dry_run_step(
            after_dry_events(root, platform, events, n - 1),
            root,
            platform,
            events[n - 1],
        ).0
    }
}

/// Whether one of the first `n` of `events` says that cargo went through with
/// the crate `i`, when the dry run was waiting for that.
pub open spec fn went_through(
    root: Seq<char>,
    platform: Platform,
    events: Seq<DryRunEventModel>,
    n: int,
    i: int,
) -> bool {
    exists|k: int|
        0 <= k < n && #[trigger] after_dry_events(root, platform, events, k).at == i
            && after_dry_events(root, platform, events, k).stage == DryRunStage::Running
            && (events[k] matches DryRunEventModel::Ran(r) && r is Ok)
}

/// A dry run is past a crate only once cargo went through with it: the crates
/// come in the order of the release, the first failure ends the dry run, and
/// it succeeds only after the last crate.
pub proof fn lemma_dry_run_comes_in_order(
    root: Seq<char>,
    platform: Platform,
    events: Seq<DryRunEventModel>,
    n: int,
)
    requires
        0 <= n <= events.len(),
    ensures
        0 <= after_dry_events(root, platform, events, n).at <= CRATE_COUNT,
        after_dry_events(root, platform, events, n).at == CRATE_COUNT ==> after_dry_events(
            root,
            platform,
            events,
            n,
        ).stage == DryRunStage::Over,
        forall|i: int|
            0 <= i < after_dry_events(root, platform, events, n).at ==> #[trigger] went_through(
                root,
                platform,
                events,
                n,
                i,
            ),
        n > 0 && dry_run_step(
            after_dry_events(root, platform, events, n - 1),
            root,
            platform,
            events[n - 1],
        ).1 is Done ==> after_dry_events(root, platform, events, n).at == CRATE_COUNT,
        n > 0 && dry_run_step(
            after_dry_events(root, platform, events, n - 1),
            root,
            platform,
            events[n - 1],
        ).1 is Fail ==> after_dry_events(root, platform, events, n).stage == DryRunStage::Over,
    decreases n,
{
    if n > 0 {
        lemma_dry_run_comes_in_order(root, platform, events, n - 1);
        let before = after_dry_events(root, platform, events, n - 1);
        let after = after_dry_events(root, platform, events, n);
        assert forall|i: int| 0 <= i < after.at implies #[trigger] went_through(
            root,
            platform,
            events,
            n,
            i,
        ) by {
            if i < before.at {
                assert(went_through(root, platform, events, n - 1, i));
                let k = choose|k: int|
                    0 <= k < n - 1 && #[trigger] after_dry_events(root, platform, events, k).at
                        == i && after_dry_events(root, platform, events, k).stage
                        == DryRunStage::Running && (events[k] matches DryRunEventModel::Ran(r)
                        && r is Ok);
                assert(after_dry_events(root, platform, events, k).at == i);
            } else {
                assert(after_dry_events(root, platform, events, n - 1).at == i);
            }
        }
    }
}

} // verus!
