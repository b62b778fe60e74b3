//! Recovery of interrupted operations: admission, recovery, reconciliation
//! and progress markers.
//!
//! A process can stop between the record that starts an operation and the
//! one that finishes it. What is here reads the log of a session and says
//! which operations are open, whether that is legal, and what to do about
//! each. Nothing here changes the log.

use vstd::prelude::*;

use crate::events::{EventModel, HarnessEvent, RunEndOutcome};
use crate::json;
use crate::paths;
use crate::text;

verus! {

/// How many open operations on one lane mean that the log is corrupt.
pub const CORRUPTION_OPEN_OP_THRESHOLD: usize = 2;

/// What an operation is for.
pub enum OperationIntent {
    /// A run, with what it was started with. Each message is a JSON document,
    /// and so is what a run resumes from.
    Run {
        original_prompt: Vec<String>,
        initial_messages: Vec<String>,
        system_prompt_override: Option<String>,
        resume_data: Option<String>,
    },
    Compaction,
    Navigation,
}

/// The model of `OperationIntent`.
#[verifier::ext_equal]
pub enum IntentModel {
    Run {
        original_prompt: Seq<Seq<char>>,
        initial_messages: Seq<Seq<char>>,
        system_prompt_override: Option<Seq<char>>,
        resume_data: Option<Seq<char>>,
    },
    Compaction,
    Navigation,
}

impl View for OperationIntent {
    type V = IntentModel;

    open spec fn view(&self) -> IntentModel {
        match self {
            OperationIntent::Run {
                original_prompt,
                initial_messages,
                system_prompt_override,
                resume_data,
            } => IntentModel::Run {
                original_prompt: text::texts(original_prompt@),
                initial_messages: text::texts(initial_messages@),
                system_prompt_override: text::opt_text(*system_prompt_override),
                resume_data: text::opt_text(*resume_data),
            },
            OperationIntent::Compaction => IntentModel::Compaction,
            OperationIntent::Navigation => IntentModel::Navigation,
        }
    }
}

impl OperationIntent {
    /// The name of the intent.
    pub fn kind(&self) -> (out: &'static str)
        ensures
            out@ == intent_name(self@),
    {
        match self {
            OperationIntent::Run { .. } => "run",
            OperationIntent::Compaction => "compaction",
            OperationIntent::Navigation => "navigation",
        }
    }

    /// A copy of the intent.
    pub fn copy(&self) -> (r: OperationIntent)
        ensures
            r@ == self@,
    {
        match self {
            OperationIntent::Run {
                original_prompt,
                initial_messages,
                system_prompt_override,
                resume_data,
            } => OperationIntent::Run {
                original_prompt: text::clone_all(original_prompt.as_slice()),
                initial_messages: text::clone_all(initial_messages.as_slice()),
                system_prompt_override: copy_opt(system_prompt_override),
                resume_data: copy_opt(resume_data),
            },
            OperationIntent::Compaction => OperationIntent::Compaction,
            OperationIntent::Navigation => OperationIntent::Navigation,
        }
    }
}

/// The name of an intent.
pub open spec fn intent_name(intent: IntentModel) -> Seq<char> {
    match intent {
        IntentModel::Run { .. } => "run"@,
        IntentModel::Compaction => "compaction"@,
        IntentModel::Navigation => "navigation"@,
    }
}

/// One record of a session's log.
pub enum LaneRecord {
    /// An operation started; its id is the run's.
    OperationStarted {
        id: String,
        seq: u64,
        lane: String,
        timestamp: i64,
        source_leaf_id: Option<String>,
        intent: OperationIntent,
    },
    OperationFinished { seq: u64, lane: String, run_id: String },
    /// An entry that an operation provisioned: a JSON document.
    WriteDeferred { seq: u64, lane: String, run_id: String, target: String },
    ToolStarted {
        seq: u64,
        lane: String,
        run_id: String,
        tool_call_id: String,
        tool_name: String,
        result_entry_id: String,
    },
    Other { seq: u64, lane: String },
}

/// The model of `LaneRecord`.
pub enum RecordModel {
    OperationStarted {
        id: Seq<char>,
        seq: u64,
        lane: Seq<char>,
        timestamp: i64,
        source_leaf_id: Option<Seq<char>>,
        intent: IntentModel,
    },
    OperationFinished { seq: u64, lane: Seq<char>, run_id: Seq<char> },
    WriteDeferred { seq: u64, lane: Seq<char>, run_id: Seq<char>, target: Seq<char> },
    ToolStarted {
        seq: u64,
        lane: Seq<char>,
        run_id: Seq<char>,
        tool_call_id: Seq<char>,
        tool_name: Seq<char>,
        result_entry_id: Seq<char>,
    },
    Other { seq: u64, lane: Seq<char> },
}

impl View for LaneRecord {
    type V = RecordModel;

    open spec fn view(&self) -> RecordModel {
        match self {
            LaneRecord::OperationStarted { id, seq, lane, timestamp, source_leaf_id, intent } =>
            RecordModel::OperationStarted {
                id: id@,
                seq: *seq,
                lane: lane@,
                timestamp: *timestamp,
                source_leaf_id: text::opt_text(*source_leaf_id),
                intent: intent@,
            },
            LaneRecord::OperationFinished { seq, lane, run_id } => RecordModel::OperationFinished {
                seq: *seq,
                lane: lane@,
                run_id: run_id@,
            },
            LaneRecord::WriteDeferred { seq, lane, run_id, target } => RecordModel::WriteDeferred {
                seq: *seq,
                lane: lane@,
                run_id: run_id@,
                target: target@,
            },
            LaneRecord::ToolStarted {
                seq,
                lane,
                run_id,
                tool_call_id,
                tool_name,
                result_entry_id,
            } => RecordModel::ToolStarted {
                seq: *seq,
                lane: lane@,
                run_id: run_id@,
                tool_call_id: tool_call_id@,
                tool_name: tool_name@,
                result_entry_id: result_entry_id@,
            },
            LaneRecord::Other { seq, lane } => RecordModel::Other { seq: *seq, lane: lane@ },
        }
    }
}

/// The lane that a record belongs to.
pub open spec fn record_lane(r: RecordModel) -> Seq<char> {
    match r {
        RecordModel::OperationStarted { lane, .. } => lane,
        RecordModel::OperationFinished { lane, .. } => lane,
        RecordModel::WriteDeferred { lane, .. } => lane,
        RecordModel::ToolStarted { lane, .. } => lane,
        RecordModel::Other { lane, .. } => lane,
    }
}

/// The sequence number of a record.
pub open spec fn record_seq(r: RecordModel) -> u64 {
    match r {
        RecordModel::OperationStarted { seq, .. } => seq,
        RecordModel::OperationFinished { seq, .. } => seq,
        RecordModel::WriteDeferred { seq, .. } => seq,
        RecordModel::ToolStarted { seq, .. } => seq,
        RecordModel::Other { seq, .. } => seq,
    }
}

impl LaneRecord {
    /// The lane that the record belongs to.
    pub fn lane(&self) -> (out: &str)
        ensures
            out@ == record_lane(self@),
    {
        match self {
            LaneRecord::OperationStarted { lane, .. } => lane.as_str(),
            LaneRecord::OperationFinished { lane, .. } => lane.as_str(),
            LaneRecord::WriteDeferred { lane, .. } => lane.as_str(),
            LaneRecord::ToolStarted { lane, .. } => lane.as_str(),
            LaneRecord::Other { lane, .. } => lane.as_str(),
        }
    }

    /// The sequence number of the record.
    pub fn seq(&self) -> (out: u64)
        ensures
            out == record_seq(self@),
    {
        match self {
            LaneRecord::OperationStarted { seq, .. } => *seq,
            LaneRecord::OperationFinished { seq, .. } => *seq,
            LaneRecord::WriteDeferred { seq, .. } => *seq,
            LaneRecord::ToolStarted { seq, .. } => *seq,
            LaneRecord::Other { seq, .. } => *seq,
        }
    }
}

/// Where a lane stands.
pub struct LanePointer {
    pub lane: String,
    pub leaf_id: Option<String>,
    /// The sequence number of the lane's last entry, 0 where it has none.
    pub last_entry_seq: u64,
}

/// The model of `LanePointer`.
#[verifier::ext_equal]
pub struct PointerModel {
    pub lane: Seq<char>,
    pub leaf_id: Option<Seq<char>>,
    pub last_entry_seq: u64,
}

impl View for LanePointer {
    type V = PointerModel;

    open spec fn view(&self) -> PointerModel {
        PointerModel {
            lane: self.lane@,
            leaf_id: text::opt_text(self.leaf_id),
            last_entry_seq: self.last_entry_seq,
        }
    }
}

/// A session's log: the records of all lanes, oldest first, and where each
/// lane stands.
pub struct SessionLog {
    pub records: Vec<LaneRecord>,
    pub lanes: Vec<LanePointer>,
}

/// The model of `SessionLog`.
#[verifier::ext_equal]
pub struct LogModel {
    pub records: Seq<RecordModel>,
    pub lanes: Seq<PointerModel>,
}

impl View for SessionLog {
    type V = LogModel;

    open spec fn view(&self) -> LogModel {
        LogModel {
            records: Seq::new(self.records@.len(), |i: int| self.records@[i]@),
            lanes: Seq::new(self.lanes@.len(), |i: int| self.lanes@[i]@),
        }
    }
}

/// A lane operation left open by a process that stopped.
pub struct OpenOperation {
    pub run_id: String,
    pub lane: String,
    pub source_leaf_id: Option<String>,
    pub intent: OperationIntent,
    pub started_at: i64,
}

/// The model of `OpenOperation`.
#[verifier::ext_equal]
pub struct OperationModel {
    pub run_id: Seq<char>,
    pub lane: Seq<char>,
    pub source_leaf_id: Option<Seq<char>>,
    pub intent: IntentModel,
    pub started_at: i64,
}

impl View for OpenOperation {
    type V = OperationModel;

    open spec fn view(&self) -> OperationModel {
        OperationModel {
            run_id: self.run_id@,
            lane: self.lane@,
            source_leaf_id: text::opt_text(self.source_leaf_id),
            intent: self.intent@,
            started_at: self.started_at,
        }
    }
}

/// The views of a list of operations.
pub open spec fn operation_views(v: Seq<OpenOperation>) -> Seq<OperationModel> {
    Seq::new(v.len(), |i: int| v[i]@)
}

impl OpenOperation {
    /// The name of the operation's intent.
    pub fn kind(&self) -> (out: &'static str)
        ensures
            out@ == intent_name(self.intent@),
    {
        self.intent.kind()
    }
}

/// An entry that an open operation provisioned and that is not committed.
pub struct PendingWrite {
    pub run_id: String,
    /// The entry, a JSON document.
    pub target: String,
    pub provisioned_id: Option<String>,
}

/// The model of `PendingWrite`.
#[verifier::ext_equal]
pub struct WriteModel {
    pub run_id: Seq<char>,
    pub target: Seq<char>,
    pub provisioned_id: Option<Seq<char>>,
}

impl View for PendingWrite {
    type V = WriteModel;

    open spec fn view(&self) -> WriteModel {
        WriteModel {
            run_id: self.run_id@,
            target: self.target@,
            provisioned_id: text::opt_text(self.provisioned_id),
        }
    }
}

/// The views of a list of writes.
pub open spec fn write_views(v: Seq<PendingWrite>) -> Seq<WriteModel> {
    Seq::new(v.len(), |i: int| v[i]@)
}

/// A tool call whose result may or may not be there.
pub struct ToolFrame {
    pub run_id: String,
    pub tool_call_id: String,
    pub tool_name: String,
    pub result_entry_id: String,
}

/// The model of `ToolFrame`.
#[verifier::ext_equal]
pub struct FrameModel {
    pub run_id: Seq<char>,
    pub tool_call_id: Seq<char>,
    pub tool_name: Seq<char>,
    pub result_entry_id: Seq<char>,
}

impl View for ToolFrame {
    type V = FrameModel;

    open spec fn view(&self) -> FrameModel {
        FrameModel {
            run_id: self.run_id@,
            tool_call_id: self.tool_call_id@,
            tool_name: self.tool_name@,
            result_entry_id: self.result_entry_id@,
        }
    }
}

/// The views of a list of tool calls.
pub open spec fn frame_views(v: Seq<ToolFrame>) -> Seq<FrameModel> {
    Seq::new(v.len(), |i: int| v[i]@)
}

/// Something that is wrong with a lane.
pub enum RecoveryFinding {
    /// More than one operation is open: the log is corrupt.
    MultipleOpenOperations { lane: String, run_ids: Vec<String> },
    /// An open operation has no driver; it can only be aborted.
    OrphanedOperation { run_id: String },
    /// A deferred write belongs to no open operation.
    DanglingWrite { run_id: String },
    /// A tool call belongs to no open operation.
    DanglingToolFrame { run_id: String, tool_call_id: String },
}

/// The model of `RecoveryFinding`.
pub enum FindingModel {
    MultipleOpenOperations { lane: Seq<char>, run_ids: Seq<Seq<char>> },
    OrphanedOperation { run_id: Seq<char> },
    DanglingWrite { run_id: Seq<char> },
    DanglingToolFrame { run_id: Seq<char>, tool_call_id: Seq<char> },
}

impl View for RecoveryFinding {
    type V = FindingModel;

    open spec fn view(&self) -> FindingModel {
        match self {
            RecoveryFinding::MultipleOpenOperations { lane, run_ids } =>
            FindingModel::MultipleOpenOperations { lane: lane@, run_ids: text::texts(run_ids@) },
            RecoveryFinding::OrphanedOperation { run_id } => FindingModel::OrphanedOperation {
                run_id: run_id@,
            },
            RecoveryFinding::DanglingWrite { run_id } => FindingModel::DanglingWrite {
                run_id: run_id@,
            },
            RecoveryFinding::DanglingToolFrame { run_id, tool_call_id } =>
            FindingModel::DanglingToolFrame { run_id: run_id@, tool_call_id: tool_call_id@ },
        }
    }
}

/// The views of a list of findings.
pub open spec fn finding_views(v: Seq<RecoveryFinding>) -> Seq<FindingModel> {
    Seq::new(v.len(), |i: int| v[i]@)
}

impl RecoveryFinding {
    /// The code of the finding.
    pub fn code(&self) -> (out: &'static str)
        ensures
            out@ == (match self@ {
                FindingModel::MultipleOpenOperations { .. } => "multiple_open_operations"@,
                FindingModel::OrphanedOperation { .. } => "orphaned_operation"@,
                FindingModel::DanglingWrite { .. } => "dangling_write"@,
                FindingModel::DanglingToolFrame { .. } => "dangling_tool_frame"@,
            }),
    {
        match self {
            RecoveryFinding::MultipleOpenOperations { .. } => "multiple_open_operations",
            RecoveryFinding::OrphanedOperation { .. } => "orphaned_operation",
            RecoveryFinding::DanglingWrite { .. } => "dangling_write",
            RecoveryFinding::DanglingToolFrame { .. } => "dangling_tool_frame",
        }
    }
}

/// What recovery found of one lane.
pub struct LaneRecovery {
    pub lane: String,
    pub leaf_id: Option<String>,
    pub open_operations: Vec<OpenOperation>,
    pub pending_writes: Vec<PendingWrite>,
    pub tool_frames: Vec<ToolFrame>,
    pub findings: Vec<RecoveryFinding>,
}

/// The model of `LaneRecovery`.
#[verifier::ext_equal]
pub struct RecoveryModel {
    pub lane: Seq<char>,
    pub leaf_id: Option<Seq<char>>,
    pub open_operations: Seq<OperationModel>,
    pub pending_writes: Seq<WriteModel>,
    pub tool_frames: Seq<FrameModel>,
    pub findings: Seq<FindingModel>,
}

impl View for LaneRecovery {
    type V = RecoveryModel;

    open spec fn view(&self) -> RecoveryModel {
        RecoveryModel {
            lane: self.lane@,
            leaf_id: text::opt_text(self.leaf_id),
            open_operations: operation_views(self.open_operations@),
            pending_writes: write_views(self.pending_writes@),
            tool_frames: frame_views(self.tool_frames@),
            findings: finding_views(self.findings@),
        }
    }
}

/// Whether a lane needs no recovery.
pub open spec fn clean(r: RecoveryModel) -> bool {
    r.open_operations.len() == 0 && r.pending_writes.len() == 0 && r.findings.len() == 0
}

/// Whether a lane's log is corrupt, as opposed to interrupted.
pub open spec fn corrupt(r: RecoveryModel) -> bool {
    exists|i: int| 0 <= i < r.findings.len() && #[trigger] r.findings[i] is MultipleOpenOperations
}

impl LaneRecovery {
    /// Whether the lane needs no recovery.
    pub fn is_clean(&self) -> (r: bool)
        ensures
            r == clean(self@),
    {
        assert(self@.open_operations.len() == self.open_operations@.len());
        assert(self@.pending_writes.len() == self.pending_writes@.len());
        assert(self@.findings.len() == self.findings@.len());
        self.open_operations.len() == 0 && self.pending_writes.len() == 0 && self.findings.len()
            == 0
    }

    /// Whether the lane's log is corrupt, as opposed to interrupted.
    pub fn is_corrupt(&self) -> (r: bool)
        ensures
            r == corrupt(self@),
    {
        let mut i: usize = 0;
        while i < self.findings.len()
            invariant
                i <= self.findings@.len(),
                forall|j: int|
                    0 <= j < i ==> !(#[trigger] self@.findings[j] is MultipleOpenOperations),
            decreases self.findings.len() - i,
        {
            assert(self@.findings[i as int] == self.findings@[i as int]@);
            match &self.findings[i] {
                RecoveryFinding::MultipleOpenOperations { .. } => {
                    return true;
                },
                _ => {},
            }
            i += 1;
        }
        false
    }

    /// The open operation, where there is exactly one.
    pub fn sole_open_operation(&self) -> (r: Option<&OpenOperation>)
        ensures
            match r {
                Some(op) => self@.open_operations == seq![op@],
                None => self@.open_operations.len() != 1,
            },
    {
        assert(self@.open_operations.len() == self.open_operations@.len());
        if self.open_operations.len() == 1 {
            assert(self@.open_operations =~= seq![self.open_operations@[0]@]);
            Some(&self.open_operations[0])
        } else {
            None
        }
    }
}

/// What to do about something that was recovered.
pub enum RecoveryDecision {
    /// Abort the orphaned operation.
    Abort { run_id: String },
    /// The lane is corrupt: say so, repair nothing.
    FlagCorruption { lane: String, run_ids: Vec<String> },
    /// What is there belongs to no open operation.
    DropDangling { run_id: String },
}

/// The model of `RecoveryDecision`.
pub enum DecisionModel {
    Abort { run_id: Seq<char> },
    FlagCorruption { lane: Seq<char>, run_ids: Seq<Seq<char>> },
    DropDangling { run_id: Seq<char> },
}

impl View for RecoveryDecision {
    type V = DecisionModel;

    open spec fn view(&self) -> DecisionModel {
        match self {
            RecoveryDecision::Abort { run_id } => DecisionModel::Abort { run_id: run_id@ },
            RecoveryDecision::FlagCorruption { lane, run_ids } => DecisionModel::FlagCorruption {
                lane: lane@,
                run_ids: text::texts(run_ids@),
            },
            RecoveryDecision::DropDangling { run_id } => DecisionModel::DropDangling {
                run_id: run_id@,
            },
        }
    }
}

/// The views of a list of decisions.
pub open spec fn decision_views(v: Seq<RecoveryDecision>) -> Seq<DecisionModel> {
    Seq::new(v.len(), |i: int| v[i]@)
}

impl RecoveryDecision {
    /// The run that the decision is about.
    pub fn run_id(&self) -> (r: Option<&str>)
        ensures
            text::opt_str(r) == (match self@ {
                DecisionModel::Abort { run_id } => Some(run_id),
                DecisionModel::FlagCorruption { .. } => None,
                DecisionModel::DropDangling { run_id } => Some(run_id),
            }),
    {
        match self {
            RecoveryDecision::Abort { run_id } => Some(run_id.as_str()),
            RecoveryDecision::FlagCorruption { .. } => None,
            RecoveryDecision::DropDangling { run_id } => Some(run_id.as_str()),
        }
    }
}

/// How far a lane had come when someone looked.
pub struct LaneCheckpoint {
    pub lane: String,
    pub leaf_id: Option<String>,
    /// The last entry seen.
    pub last_entry_seq: u64,
    /// The last record seen.
    pub last_record_seq: u64,
    pub has_open_operation: bool,
}

/// The model of `LaneCheckpoint`.
#[verifier::ext_equal]
pub struct CheckpointModel {
    pub lane: Seq<char>,
    pub leaf_id: Option<Seq<char>>,
    pub last_entry_seq: u64,
    pub last_record_seq: u64,
    pub has_open_operation: bool,
}

impl View for LaneCheckpoint {
    type V = CheckpointModel;

    open spec fn view(&self) -> CheckpointModel {
        CheckpointModel {
            lane: self.lane@,
            leaf_id: text::opt_text(self.leaf_id),
            last_entry_seq: self.last_entry_seq,
            last_record_seq: self.last_record_seq,
            has_open_operation: self.has_open_operation,
        }
    }
}

/// Whether `a` saw less of the log than `b`: fewer records or, with as many,
/// fewer entries.
pub open spec fn behind(a: CheckpointModel, b: CheckpointModel) -> bool {
    a.last_record_seq < b.last_record_seq || (a.last_record_seq == b.last_record_seq
        && a.last_entry_seq < b.last_entry_seq)
}

impl LaneCheckpoint {
    /// Whether `other` saw more of the log.
    pub fn is_behind(&self, other: &LaneCheckpoint) -> (r: bool)
        ensures
            r == behind(self@, other@),
    {
        self.last_record_seq < other.last_record_seq || (self.last_record_seq
            == other.last_record_seq && self.last_entry_seq < other.last_entry_seq)
    }
}

/// Whether the log holds the end of the run `run_id` on `lane`.
pub open spec fn finished(records: Seq<RecordModel>, lane: Seq<char>, run_id: Seq<char>) -> bool {
    exists|i: int|
        0 <= i < records.len() && (#[trigger] records[i] matches RecordModel::OperationFinished {
            lane: l,
            run_id: r,
            ..
        } && l == lane && r == run_id)
}

/// The operations that the first `n` records start on `lane` and that
/// nothing in the log finishes, oldest first.
pub open spec fn open_among(records: Seq<RecordModel>, lane: Seq<char>, n: int) -> Seq<OperationModel>
    decreases n,
{
    if n <= 0 {
        seq![]
    } else {
        let rest = open_among(records, lane, n - 1);
        match records[n - 1] {
            RecordModel::OperationStarted {
                id,
                lane: l,
                timestamp,
                source_leaf_id,
                intent,
                ..
            } => if l == lane && !finished(records, lane, id) {
                rest.push(
                    OperationModel {
                        run_id: id,
                        lane: l,
                        source_leaf_id,
                        intent,
                        started_at: timestamp,
                    },
                )
            } else {
                rest
            },
            _ => rest,
        }
    }
}

/// The open operations of `lane`, oldest first.
pub open spec fn open_on(log: LogModel, lane: Seq<char>) -> Seq<OperationModel> {
    open_among(log.records, lane, log.records.len() as int)
}

/// Whether `run_id` is the run of an open operation.
pub open spec fn is_open(open: Seq<OperationModel>, run_id: Seq<char>) -> bool {
    exists|i: int| 0 <= i < open.len() && (#[trigger] open[i]).run_id == run_id
}

/// What the records of a lane show besides its open operations.
#[verifier::ext_equal]
pub struct FramesModel {
    pub pending_writes: Seq<WriteModel>,
    pub tool_frames: Seq<FrameModel>,
    pub findings: Seq<FindingModel>,
}

/// What the first `n` records show of `lane`, whose open operations are
/// `open`.
pub open spec fn frames_among(
    records: Seq<RecordModel>,
    lane: Seq<char>,
    open: Seq<OperationModel>,
    n: int,
) -> FramesModel
    decreases n,
{
    if n <= 0 {
        FramesModel { pending_writes: seq![], tool_frames: seq![], findings: seq![] }
    } else {
        let f = frames_among(records, lane, open, n - 1);
        if record_lane(records[n - 1]) != lane {
            f
        } else {
            match records[n - 1] {
                RecordModel::WriteDeferred { run_id, target, .. } => FramesModel {
                    pending_writes: f.pending_writes.push(
                        WriteModel {
                            run_id,
                            target,
                            provisioned_id: json::string_at(target, "id"@),
                        },
                    ),
                    findings: if is_open(open, run_id) {
                        f.findings
                    } else {
                        f.findings.push(FindingModel::DanglingWrite { run_id })
                    },
                    ..f
                },
                RecordModel::ToolStarted {
                    run_id,
                    tool_call_id,
                    tool_name,
                    result_entry_id,
                    ..
                } => FramesModel {
                    tool_frames: f.tool_frames.push(
                        FrameModel { run_id, tool_call_id, tool_name, result_entry_id },
                    ),
                    findings: if is_open(open, run_id) {
                        f.findings
                    } else {
                        f.findings.push(
                            FindingModel::DanglingToolFrame { run_id, tool_call_id },
                        )
                    },
                    ..f
                },
                _ => f,
            }
        }
    }
}

/// The runs of a list of operations.
pub open spec fn runs_of(open: Seq<OperationModel>) -> Seq<Seq<char>> {
    Seq::new(open.len(), |i: int| open[i].run_id)
}

/// What the open operations themselves say of a lane: two or more are
/// corruption, one is orphaned.
pub open spec fn operation_findings(lane: Seq<char>, open: Seq<OperationModel>) -> Seq<FindingModel> {
    if open.len() >= CORRUPTION_OPEN_OP_THRESHOLD {
        seq![FindingModel::MultipleOpenOperations { lane, run_ids: runs_of(open) }]
    } else if open.len() == 1 {
        seq![FindingModel::OrphanedOperation { run_id: open[0].run_id }]
    } else {
        seq![]
    }
}

/// The pointer of `lane`, from the `i`th on.
pub open spec fn pointer_from(lanes: Seq<PointerModel>, lane: Seq<char>, i: int) -> Option<
    PointerModel,
>
    decreases lanes.len() - i,
{
    if i < 0 || i >= lanes.len() {
        None
    } else if lanes[i].lane == lane {
        Some(lanes[i])
    } else {
        pointer_from(lanes, lane, i + 1)
    }
}

/// The leaf that `lane` points to.
pub open spec fn leaf_of(log: LogModel, lane: Seq<char>) -> Option<Seq<char>> {
    match pointer_from(log.lanes, lane, 0) {
        Some(p) => p.leaf_id,
        None => None,
    }
}

/// What recovery finds of `lane`.
pub open spec fn recovery_of(log: LogModel, lane: Seq<char>) -> RecoveryModel {
    let open = open_on(log, lane);
    let frames = frames_among(log.records, lane, open, log.records.len() as int);
    RecoveryModel {
        lane,
        leaf_id: leaf_of(log, lane),
        open_operations: open,
        pending_writes: frames.pending_writes,
        tool_frames: frames.tool_frames,
        findings: frames.findings + operation_findings(lane, open),
    }
}

/// The run that a dangling finding is about.
pub open spec fn dangling_run(f: FindingModel) -> Option<Seq<char>> {
    match f {
        FindingModel::DanglingWrite { run_id } => Some(run_id),
        FindingModel::DanglingToolFrame { run_id, .. } => Some(run_id),
        _ => None,
    }
}

/// Decisions with those for the first `n` findings: each dangling run is
/// dropped once.
pub open spec fn with_drops(
    decisions: Seq<DecisionModel>,
    findings: Seq<FindingModel>,
    n: int,
) -> Seq<DecisionModel>
    decreases n,
{
    if n <= 0 {
        decisions
    } else {
        let rest = with_drops(decisions, findings, n - 1);
        match dangling_run(findings[n - 1]) {
            Some(run_id) => if rest.contains(DecisionModel::DropDangling { run_id }) {
                rest
            } else {
                rest.push(DecisionModel::DropDangling { run_id })
            },
            None => rest,
        }
    }
}

/// An abort for each open operation.
pub open spec fn aborts(open: Seq<OperationModel>) -> Seq<DecisionModel> {
    Seq::new(open.len(), |i: int| DecisionModel::Abort { run_id: open[i].run_id })
}

/// What to do about a lane.
pub open spec fn decisions_of(r: RecoveryModel) -> Seq<DecisionModel> {
    if corrupt(r) {
        seq![
            DecisionModel::FlagCorruption { lane: r.lane, run_ids: runs_of(r.open_operations) },
        ]
    } else {
        with_drops(aborts(r.open_operations), r.findings, r.findings.len() as int)
    }
}

/// The last record among the first `n` that belongs to `lane`, as its
/// sequence number; 0 where there is none.
pub open spec fn last_seq_among(records: Seq<RecordModel>, lane: Seq<char>, n: int) -> u64
    decreases n,
{
    if n <= 0 {
        0
    } else if record_lane(records[n - 1]) == lane {
        record_seq(records[n - 1])
    } else {
        last_seq_among(records, lane, n - 1)
    }
}

/// How far `lane` has come.
pub open spec fn checkpoint_of(log: LogModel, lane: Seq<char>) -> CheckpointModel {
    CheckpointModel {
        lane,
        leaf_id: leaf_of(log, lane),
        last_entry_seq: match pointer_from(log.lanes, lane, 0) {
            Some(p) => p.last_entry_seq,
            None => 0,
        },
        last_record_seq: last_seq_among(log.records, lane, log.records.len() as int),
        has_open_operation: open_on(log, lane).len() > 0,
    }
}

/// The events that tell of recovered operations: each started and was
/// aborted.
pub open spec fn recovery_events_of(r: RecoveryModel, n: int) -> Seq<EventModel>
    decreases n,
{
    if n <= 0 {
        seq![]
    } else {
        recovery_events_of(r, n - 1).push(
            EventModel::RunStart { lane: r.lane, run_id: r.open_operations[n - 1].run_id },
        ).push(
            EventModel::RunEnd {
                lane: r.lane,
                run_id: r.open_operations[n - 1].run_id,
                outcome: RunEndOutcome::Aborted,
                leaf_id: match r.leaf_id {
                    Some(leaf) => leaf,
                    None => seq![],
                },
            },
        )
    }
}

/// Recovery over a session's log.
pub struct SessionRuntime {
    pub session: SessionLog,
}

fn copy_opt(o: &Option<String>) -> (r: Option<String>)
    ensures
        text::opt_text(r) == text::opt_text(*o),
{
    match o {
        Some(s) => Some(s.clone()),
        None => None,
    }
}

impl SessionRuntime {
    /// Recovery over `session`.
    pub fn new(session: SessionLog) -> (r: SessionRuntime)
        ensures
            r.session == session,
    {
        SessionRuntime { session }
    }

    fn is_finished(&self, lane: &str, run_id: &str) -> (r: bool)
        ensures
            r == finished(self.session@.records, lane@, run_id@),
    {
        let mut i: usize = 0;
        while i < self.session.records.len()
            invariant
                i <= self.session.records@.len(),
                forall|j: int|
                    0 <= j < i ==> !(#[trigger] self.session@.records[j] matches
                    RecordModel::OperationFinished { lane: l, run_id: r, .. } && l == lane@ && r
                        == run_id@),
            decreases self.session.records.len() - i,
        {
            assert(self.session@.records[i as int] == self.session.records@[i as int]@);
            match &self.session.records[i] {
                LaneRecord::OperationFinished { lane: l, run_id: r, .. } => {
                    if text::same(l.as_str(), lane) && text::same(r.as_str(), run_id) {
                        return true;
                    }
                },
                _ => {},
            }
            i += 1;
        }
        false
    }

    /// The open operations of `lane`, oldest first.
    pub fn find_open_operations(&self, lane: &str) -> (out: Vec<OpenOperation>)
        ensures
            operation_views(out@) == open_on(self.session@, lane@),
    {
        let mut out: Vec<OpenOperation> = Vec::new();
        assert(operation_views(out@) =~= seq![]);
        let mut i: usize = 0;
        while i < self.session.records.len()
            invariant
                i <= self.session.records@.len(),
                operation_views(out@) == open_among(self.session@.records, lane@, i as int),
            decreases self.session.records.len() - i,
        {
            assert(self.session@.records[i as int] == self.session.records@[i as int]@);
            match &self.session.records[i] {
                LaneRecord::OperationStarted {
                    id,
                    lane: l,
                    timestamp,
                    source_leaf_id,
                    intent,
                    ..
                } => {
                    if text::same(l.as_str(), lane) && !self.is_finished(lane, id.as_str()) {
                        let op = OpenOperation {
                            run_id: id.clone(),
                            lane: l.clone(),
                            source_leaf_id: copy_opt(source_leaf_id),
                            intent: intent.copy(),
                            started_at: *timestamp,
                        };
                        let ghost before = operation_views(out@);
                        let ghost added = op@;
                        out.push(op);
                        assert(operation_views(out@) =~= before.push(added));
                    }
                },
                _ => {},
            }
            i += 1;
        }
        assert(self.session@.records.len() == self.session.records@.len());
        out
    }

    fn find_pointer(&self, lane: &str) -> (r: Option<&LanePointer>)
        ensures
            (match r {
                Some(p) => Some(p@),
                None => None,
            }) == pointer_from(self.session@.lanes, lane@, 0),
    {
        let mut i: usize = 0;
        while i < self.session.lanes.len()
            invariant
                i <= self.session.lanes@.len(),
                pointer_from(self.session@.lanes, lane@, 0) == pointer_from(
                    self.session@.lanes,
                    lane@,
                    i as int,
                ),
            decreases self.session.lanes.len() - i,
        {
            assert(self.session@.lanes[i as int] == self.session.lanes@[i as int]@);
            if text::same(self.session.lanes[i].lane.as_str(), lane) {
                return Some(&self.session.lanes[i]);
            }
            i += 1;
        }
        None
    }

    fn leaf_id(&self, lane: &str) -> (r: Option<String>)
        ensures
            text::opt_text(r) == leaf_of(self.session@, lane@),
    {
        match self.find_pointer(lane) {
            Some(p) => copy_opt(&p.leaf_id),
            None => None,
        }
    }

    /// Whether a new operation may start on `lane`: not where one is open.
    pub fn admit_operation(&self, lane: &str) -> (r: Result<(), String>)
        ensures
            r is Ok <==> open_on(self.session@, lane@).len() == 0,
            r matches Err(m) ==> m@ == "lane '"@ + lane@ + "' already has an open operation ("@
                + open_on(self.session@, lane@)[0].run_id + ")"@,
    {
        let open = self.find_open_operations(lane);
        assert(operation_views(open@).len() == open@.len());
        if open.len() > 0 {
            assert(operation_views(open@)[0] == open@[0]@);
            return Err(
                text::cat5(
                    "lane '",
                    lane,
                    "' already has an open operation (",
                    open[0].run_id.as_str(),
                    ")",
                ),
            );
        }
        Ok(())
    }

    /// What recovery finds of `lane`.
    pub fn recover_lane(&self, lane: &str) -> (r: LaneRecovery)
        ensures
            r@ == recovery_of(self.session@, lane@),
    {
        let open = self.find_open_operations(lane);
        let ghost ops = operation_views(open@);
        let mut pending_writes: Vec<PendingWrite> = Vec::new();
        let mut tool_frames: Vec<ToolFrame> = Vec::new();
        let mut findings: Vec<RecoveryFinding> = Vec::new();
        assert(write_views(pending_writes@) =~= seq![]);
        assert(frame_views(tool_frames@) =~= seq![]);
        assert(finding_views(findings@) =~= seq![]);
        let mut i: usize = 0;
        while i < self.session.records.len()
            invariant
                i <= self.session.records@.len(),
                ops == operation_views(open@),
                (FramesModel {
                    pending_writes: write_views(pending_writes@),
                    tool_frames: frame_views(tool_frames@),
                    findings: finding_views(findings@),
                }) == frames_among(self.session@.records, lane@, ops, i as int),
            decreases self.session.records.len() - i,
        {
            let record = &self.session.records[i];
            assert(self.session@.records[i as int] == record@);
            if text::same(record.lane(), lane) {
                match record {
                    LaneRecord::WriteDeferred { run_id, target, .. } => {
                        if !lists_run(&open, run_id.as_str()) {
                            push_finding(
                                &mut findings,
                                RecoveryFinding::DanglingWrite { run_id: run_id.clone() },
                            );
                        }
                        let write = PendingWrite {
                            run_id: run_id.clone(),
                            target: target.clone(),
                            provisioned_id: json::get_string(target.as_str(), "id"),
                        };
                        let ghost before = write_views(pending_writes@);
                        let ghost added = write@;
                        pending_writes.push(write);
                        assert(write_views(pending_writes@) =~= before.push(added));
                    },
                    LaneRecord::ToolStarted {
                        run_id,
                        tool_call_id,
                        tool_name,
                        result_entry_id,
                        ..
                    } => {
                        if !lists_run(&open, run_id.as_str()) {
                            push_finding(
                                &mut findings,
                                RecoveryFinding::DanglingToolFrame {
                                    run_id: run_id.clone(),
                                    tool_call_id: tool_call_id.clone(),
                                },
                            );
                        }
                        let frame = ToolFrame {
                            run_id: run_id.clone(),
                            tool_call_id: tool_call_id.clone(),
                            tool_name: tool_name.clone(),
                            result_entry_id: result_entry_id.clone(),
                        };
                        let ghost before = frame_views(tool_frames@);
                        let ghost added = frame@;
                        tool_frames.push(frame);
                        assert(frame_views(tool_frames@) =~= before.push(added));
                    },
                    _ => {},
                }
            }
            i += 1;
        }
        assert(self.session@.records.len() == self.session.records@.len());
        assert(ops.len() == open@.len());
        let ghost found = finding_views(findings@);
        if open.len() >= CORRUPTION_OPEN_OP_THRESHOLD {
            push_finding(
                &mut findings,
                RecoveryFinding::MultipleOpenOperations {
                    lane: lane.to_owned(),
                    run_ids: run_ids(&open),
                },
            );
        } else if open.len() == 1 {
            assert(ops[0] == open@[0]@);
            push_finding(
                &mut findings,
                RecoveryFinding::OrphanedOperation { run_id: open[0].run_id.clone() },
            );
        }
        assert(finding_views(findings@) =~= found + operation_findings(lane@, ops));
        LaneRecovery {
            lane: lane.to_owned(),
            leaf_id: self.leaf_id(lane),
            open_operations: open,
            pending_writes,
            tool_frames,
            findings,
        }
    }

    /// What to do about what recovery found. A corrupt lane is only flagged.
    pub fn reconcile(&self, recovery: &LaneRecovery) -> (out: Vec<RecoveryDecision>)
        ensures
            decision_views(out@) == decisions_of(recovery@),
    {
        let mut out: Vec<RecoveryDecision> = Vec::new();
        if recovery.is_corrupt() {
            let flag = RecoveryDecision::FlagCorruption {
                lane: recovery.lane.clone(),
                run_ids: run_ids(&recovery.open_operations),
            };
            let ghost added = flag@;
            out.push(flag);
            assert(decision_views(out@) =~= seq![added]);
            return out;
        }
        let ghost ops = recovery@.open_operations;
        let mut i: usize = 0;
        while i < recovery.open_operations.len()
            invariant
                i <= recovery.open_operations@.len(),
                ops == recovery@.open_operations,
                decision_views(out@) =~= aborts(ops).take(i as int),
            decreases recovery.open_operations.len() - i,
        {
            assert(ops[i as int] == recovery.open_operations@[i as int]@);
            let abort = RecoveryDecision::Abort {
                run_id: recovery.open_operations[i].run_id.clone(),
            };
            let ghost before = decision_views(out@);
            let ghost added = abort@;
            out.push(abort);
            assert(decision_views(out@) =~= before.push(added));
            i += 1;
        }
        assert(aborts(ops).take(i as int) =~= aborts(ops));
        let ghost base = decision_views(out@);
        let mut k: usize = 0;
        while k < recovery.findings.len()
            invariant
                k <= recovery.findings@.len(),
                decision_views(out@) == with_drops(base, recovery@.findings, k as int),
            decreases recovery.findings.len() - k,
        {
            let finding = &recovery.findings[k];
            assert(recovery@.findings[k as int] == finding@);
            match finding {
                RecoveryFinding::DanglingWrite { run_id } => {
                    drop_once(&mut out, run_id.as_str());
                },
                RecoveryFinding::DanglingToolFrame { run_id, .. } => {
                    drop_once(&mut out, run_id.as_str());
                },
                _ => {},
            }
            k += 1;
        }
        assert(recovery@.findings.len() == recovery.findings@.len());
        out
    }

    /// How far `lane` has come.
    pub fn checkpoint(&self, lane: &str) -> (r: LaneCheckpoint)
        ensures
            r@ == checkpoint_of(self.session@, lane@),
    {
        let open = self.find_open_operations(lane);
        assert(operation_views(open@).len() == open@.len());
        let mut last: u64 = 0;
        let mut n: usize = self.session.records.len();
        assert(self.session@.records.len() == self.session.records@.len());
        let ghost wanted = last_seq_among(
            self.session@.records,
            lane@,
            self.session@.records.len() as int,
        );
        let mut found = false;
        while n > 0 && !found
            invariant
                n <= self.session.records@.len(),
                found ==> last == wanted,
                !found ==> last == 0 && wanted == last_seq_among(
                    self.session@.records,
                    lane@,
                    n as int,
                ),
            decreases n,
        {
            n -= 1;
            assert(self.session@.records[n as int] == self.session.records@[n as int]@);
            if text::same(self.session.records[n].lane(), lane) {
                last = self.session.records[n].seq();
                found = true;
            }
        }
        let entry: u64 = match self.find_pointer(lane) {
            Some(p) => p.last_entry_seq,
            None => 0,
        };
        LaneCheckpoint {
            lane: lane.to_owned(),
            leaf_id: self.leaf_id(lane),
            last_entry_seq: entry,
            last_record_seq: last,
            has_open_operation: open.len() > 0,
        }
    }

    /// The events that tell of recovered operations.
    pub fn emit_recovery_events(&self, recovery: &LaneRecovery) -> (out: Vec<HarnessEvent>)
        ensures
            crate::events::event_views(out@) == recovery_events_of(
                recovery@,
                recovery@.open_operations.len() as int,
            ),
    {
        let mut out: Vec<HarnessEvent> = Vec::new();
        assert(crate::events::event_views(out@) =~= seq![]);
        let mut i: usize = 0;
        while i < recovery.open_operations.len()
            invariant
                i <= recovery.open_operations@.len(),
                crate::events::event_views(out@) == recovery_events_of(recovery@, i as int),
            decreases recovery.open_operations.len() - i,
        {
            let op = &recovery.open_operations[i];
            assert(recovery@.open_operations[i as int] == op@);
            let ghost before = crate::events::event_views(out@);
            let start = HarnessEvent::RunStart {
                lane: recovery.lane.clone(),
                run_id: op.run_id.clone(),
            };
            let ghost first = start@;
            out.push(start);
            let leaf_id = match &recovery.leaf_id {
                Some(leaf) => leaf.clone(),
                None => {
                    let none = String::new();
                    assert(none@ =~= seq![]);
                    none
                },
            };
            let end = HarnessEvent::RunEnd {
                lane: recovery.lane.clone(),
                run_id: op.run_id.clone(),
                outcome: RunEndOutcome::Aborted,
                leaf_id,
            };
            let ghost second = end@;
            out.push(end);
            assert(crate::events::event_views(out@) =~= before.push(first).push(second));
            i += 1;
        }
        assert(recovery@.open_operations.len() == recovery.open_operations@.len());
        out
    }
}

fn lists_run(open: &Vec<OpenOperation>, run_id: &str) -> (r: bool)
    ensures
        r == is_open(operation_views(open@), run_id@),
{
    let mut i: usize = 0;
    while i < open.len()
        invariant
            i <= open@.len(),
            forall|j: int|
                0 <= j < i ==> (#[trigger] operation_views(open@)[j]).run_id != run_id@,
        decreases open.len() - i,
    {
        assert(operation_views(open@)[i as int] == open@[i as int]@);
        if text::same(open[i].run_id.as_str(), run_id) {
            return true;
        }
        i += 1;
    }
    false
}

fn run_ids(open: &Vec<OpenOperation>) -> (out: Vec<String>)
    ensures
        text::texts(out@) == runs_of(operation_views(open@)),
{
    let ghost all = runs_of(operation_views(open@));
    let mut out: Vec<String> = Vec::new();
    let mut i: usize = 0;
    while i < open.len()
        invariant
            i <= open@.len(),
            all == runs_of(operation_views(open@)),
            text::texts(out@) =~= all.take(i as int),
        decreases open.len() - i,
    {
        text::push_text(&mut out, open[i].run_id.as_str());
        i += 1;
    }
    assert(all.take(i as int) =~= all);
    out
}

fn push_finding(out: &mut Vec<RecoveryFinding>, f: RecoveryFinding)
    ensures
        finding_views(final(out)@) == finding_views(old(out)@).push(f@),
{
    let ghost added = f@;
    out.push(f);
    assert(finding_views(out@) =~= finding_views(old(out)@).push(added));
}

fn drop_once(out: &mut Vec<RecoveryDecision>, run_id: &str)
    ensures
        decision_views(final(out)@) == (if decision_views(old(out)@).contains(
            DecisionModel::DropDangling { run_id: run_id@ },
        ) {
            decision_views(old(out)@)
        } else {
            decision_views(old(out)@).push(DecisionModel::DropDangling { run_id: run_id@ })
        }),
{
    let ghost wanted = DecisionModel::DropDangling { run_id: run_id@ };
    let mut i: usize = 0;
    while i < out.len()
        invariant
            i <= out@.len(),
            out@ == old(out)@,
            wanted == (DecisionModel::DropDangling { run_id: run_id@ }),
            forall|j: int| 0 <= j < i ==> #[trigger] decision_views(out@)[j] != wanted,
        decreases out.len() - i,
    {
        assert(decision_views(out@)[i as int] == out@[i as int]@);
        match &out[i] {
            RecoveryDecision::DropDangling { run_id: r } => {
                if text::same(r.as_str(), run_id) {
                    assert(decision_views(out@)[i as int] == wanted);
                    return;
                }
            },
            _ => {},
        }
        i += 1;
    }
    assert(!decision_views(out@).contains(wanted));
    let decision = RecoveryDecision::DropDangling { run_id: run_id.to_owned() };
    out.push(decision);
    assert(decision_views(out@) =~= decision_views(old(out)@).push(wanted));
}

/// What recovery found of one lane, by the lane's name.
pub struct RecoveredLane {
    pub lane: String,
    pub recovery: LaneRecovery,
}

/// The views of a list of recovered lanes.
pub open spec fn lane_views(v: Seq<RecoveredLane>) -> Seq<(Seq<char>, RecoveryModel)> {
    Seq::new(v.len(), |i: int| (v[i].lane@, v[i].recovery@))
}

/// The first position, from `i` on, whose lane does not come before `lane`.
pub open spec fn lane_slot(list: Seq<(Seq<char>, RecoveryModel)>, lane: Seq<char>, i: int) -> int
    decreases list.len() - i,
{
    if 0 <= i < list.len() && paths::text_before(list[i].0, lane, 0) {
        lane_slot(list, lane, i + 1)
    } else {
        i
    }
}

/// A list in the order of the lanes with one more lane; a lane that is there
/// is replaced.
pub open spec fn with_lane(
    list: Seq<(Seq<char>, RecoveryModel)>,
    lane: Seq<char>,
    r: RecoveryModel,
) -> Seq<(Seq<char>, RecoveryModel)> {
    let k = lane_slot(list, lane, 0);
    if k < list.len() && list[k].0 == lane {
        list.update(k, (lane, r))
    } else {
        list.insert(k, (lane, r))
    }
}

/// What recovery finds of the first `n` lanes, in the order of the lanes.
pub open spec fn recovered_among(log: LogModel, n: int) -> Seq<(Seq<char>, RecoveryModel)>
    decreases n,
{
    if n <= 0 {
        seq![]
    } else {
        with_lane(
            recovered_among(log, n - 1),
            log.lanes[n - 1].lane,
            recovery_of(log, log.lanes[n - 1].lane),
        )
    }
}

/// What recovery finds of every lane, in the order of the lanes.
pub fn recover_all_lanes(runtime: &SessionRuntime) -> (out: Vec<RecoveredLane>)
    ensures
        lane_views(out@) == recovered_among(
            runtime.session@,
            runtime.session@.lanes.len() as int,
        ),
{
    let mut out: Vec<RecoveredLane> = Vec::new();
    assert(lane_views(out@) =~= seq![]);
    let mut i: usize = 0;
    while i < runtime.session.lanes.len()
        invariant
            i <= runtime.session.lanes@.len(),
            lane_views(out@) == recovered_among(runtime.session@, i as int),
        decreases runtime.session.lanes.len() - i,
    {
        let lane = runtime.session.lanes[i].lane.as_str();
        assert(runtime.session@.lanes[i as int] == runtime.session.lanes@[i as int]@);
        let recovery = runtime.recover_lane(lane);
        let ghost views = lane_views(out@);
        let ghost model = recovery@;
        let mut k: usize = 0;
        while k < out.len() && paths::text_less(out[k].lane.as_str(), lane)
            invariant
                k <= out@.len(),
                views == lane_views(out@),
                lane_slot(views, lane@, 0) == lane_slot(views, lane@, k as int),
            decreases out.len() - k,
        {
            assert(views[k as int].0 == out@[k as int].lane@);
            k += 1;
        }
        assert(k < out@.len() ==> views[k as int].0 == out@[k as int].lane@);
        let entry = RecoveredLane { lane: lane.to_owned(), recovery };
        if k < out.len() && text::same(out[k].lane.as_str(), lane) {
            out.set(k, entry);
            assert(lane_views(out@) =~= views.update(k as int, (lane@, model)));
        } else {
            out.insert(k, entry);
            assert(lane_views(out@) =~= views.insert(k as int, (lane@, model)));
        }
        i += 1;
    }
    assert(runtime.session@.lanes.len() == runtime.session.lanes@.len());
    out
}

proof fn lemma_frame_findings(
    records: Seq<RecordModel>,
    lane: Seq<char>,
    open: Seq<OperationModel>,
    n: int,
    i: int,
)
    requires
        0 <= n <= records.len(),
        0 <= i < frames_among(records, lane, open, n).findings.len(),
    ensures
        dangling_run(frames_among(records, lane, open, n).findings[i]) matches Some(run)
            && !is_open(open, run),
    decreases n,
{
    if n > 0 {
        let rest = frames_among(records, lane, open, n - 1).findings;
        if i < rest.len() {
            lemma_frame_findings(records, lane, open, n - 1, i);
        }
    }
}

/// A lane is corrupt exactly where two or more of its operations are open.
pub proof fn lemma_corrupt_means_many_open(log: LogModel, lane: Seq<char>)
    ensures
        corrupt(recovery_of(log, lane)) <==> open_on(log, lane).len()
            >= CORRUPTION_OPEN_OP_THRESHOLD,
{
    let r = recovery_of(log, lane);
    let open = open_on(log, lane);
    let n = log.records.len() as int;
    let frames = frames_among(log.records, lane, open, n);
    assert forall|i: int| 0 <= i < frames.findings.len() implies !(
    #[trigger] r.findings[i] is MultipleOpenOperations) by {
        lemma_frame_findings(log.records, lane, open, n, i);
        assert(r.findings[i] == frames.findings[i]);
    }
    if open.len() >= CORRUPTION_OPEN_OP_THRESHOLD {
        assert(r.findings[frames.findings.len() as int] is MultipleOpenOperations);
    }
    if corrupt(r) {
        let i = choose|i: int|
            0 <= i < r.findings.len() && #[trigger] r.findings[i] is MultipleOpenOperations;
        assert(i >= frames.findings.len());
    }
}

/// A new operation is admitted to a lane exactly where recovery finds no
/// operation open on it, and the checkpoint says the same.
pub proof fn lemma_admission_agrees_with_recovery(log: LogModel, lane: Seq<char>)
    ensures
        open_on(log, lane).len() == 0 <==> recovery_of(log, lane).open_operations.len() == 0,
        checkpoint_of(log, lane).has_open_operation <==> recovery_of(
            log,
            lane,
        ).open_operations.len() > 0,
{
}

proof fn lemma_drops_keep(
    decisions: Seq<DecisionModel>,
    findings: Seq<FindingModel>,
    n: int,
    d: DecisionModel,
)
    requires
        0 <= n <= findings.len(),
    ensures
        decisions.contains(d) ==> with_drops(decisions, findings, n).contains(d),
        with_drops(decisions, findings, n).contains(d) ==> decisions.contains(d) || exists|i: int|
            0 <= i < n && (dangling_run(#[trigger] findings[i]) matches Some(run_id) && d == (
            DecisionModel::DropDangling { run_id })),
        forall|i: int|
            0 <= i < n ==> (dangling_run(#[trigger] findings[i]) matches Some(run_id)
                ==> with_drops(decisions, findings, n).contains(
                DecisionModel::DropDangling { run_id },
            )),
    decreases n,
{
    if n > 0 {
        lemma_drops_keep(decisions, findings, n - 1, d);
        let rest = with_drops(decisions, findings, n - 1);
        let out = with_drops(decisions, findings, n);
        assert forall|x: DecisionModel| #[trigger] rest.contains(x) implies out.contains(x) by {
            let k = choose|k: int| 0 <= k < rest.len() && rest[k] == x;
            assert(out[k] == x);
        }
        if let Some(run_id) = dangling_run(findings[n - 1]) {
            let last = DecisionModel::DropDangling { run_id };
            if !rest.contains(last) {
                assert(out[rest.len() as int] == last);
            }
            assert(out.contains(last));
        }
        if out.contains(d) && !rest.contains(d) {
            let k = choose|k: int| 0 <= k < out.len() && out[k] == d;
            if k < rest.len() {
                assert(rest[k] == d);
            }
            assert(dangling_run(findings[n - 1]) is Some);
        }
        assert forall|i: int| 0 <= i < n implies (dangling_run(#[trigger] findings[i]) matches Some(
            run_id,
        ) ==> out.contains(DecisionModel::DropDangling { run_id })) by {
            if i < n - 1 {
                if let Some(run_id) = dangling_run(findings[i]) {
                    assert(rest.contains(DecisionModel::DropDangling { run_id }));
                }
            }
        }
    }
}

/// Every open operation of a lane that is not corrupt is aborted, every
/// dangling run is dropped, and a corrupt lane is flagged and left alone.
pub proof fn lemma_every_finding_is_decided(log: LogModel, lane: Seq<char>)
    ensures
        corrupt(recovery_of(log, lane)) ==> decisions_of(recovery_of(log, lane)).len() == 1
            && decisions_of(recovery_of(log, lane))[0] is FlagCorruption,
        !corrupt(recovery_of(log, lane)) ==> {
            &&& forall|i: int|
                0 <= i < open_on(log, lane).len() ==> decisions_of(
                    recovery_of(log, lane),
                ).contains(
                    DecisionModel::Abort { run_id: (#[trigger] open_on(log, lane)[i]).run_id },
                )
            &&& forall|i: int|
                0 <= i < recovery_of(log, lane).findings.len() ==> (dangling_run(
                    #[trigger] recovery_of(log, lane).findings[i],
                ) matches Some(run_id) ==> decisions_of(recovery_of(log, lane)).contains(
                    DecisionModel::DropDangling { run_id },
                ))
        },
{
    let r = recovery_of(log, lane);
    if !corrupt(r) {
        let base = aborts(r.open_operations);
        let n = r.findings.len() as int;
        assert forall|i: int| 0 <= i < open_on(log, lane).len() implies decisions_of(r).contains(
            DecisionModel::Abort { run_id: (#[trigger] open_on(log, lane)[i]).run_id },
        ) by {
            let d = DecisionModel::Abort { run_id: open_on(log, lane)[i].run_id };
            assert(base[i] == d);
            lemma_drops_keep(base, r.findings, n, d);
        }
        lemma_drops_keep(base, r.findings, n, DecisionModel::Abort { run_id: seq![] });
    }
}

/// To be behind is a strict order: no checkpoint is behind itself, two are
/// not behind each other, and the order carries through.
pub proof fn lemma_behind_is_strict(a: CheckpointModel, b: CheckpointModel, c: CheckpointModel)
    ensures
        !behind(a, a),
        behind(a, b) ==> !behind(b, a),
        behind(a, b) && behind(b, c) ==> behind(a, c),
{
}

} // verus!
