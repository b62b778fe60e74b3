//! What a session's log says of its lanes.

use vstd::prelude::*;

use crate::events::{EventModel, RunEndOutcome};
use crate::json;
use crate::session_runtime;
use crate::session_runtime::{
    DecisionModel, FindingModel, LogModel, OperationModel,
    RecordModel, RecoveryModel,
};

verus! {

/// Whether a log starts the run `run` on `lane`.
pub open spec fn started_on(records: Seq<RecordModel>, lane: Seq<char>, run: Seq<char>) -> bool {
    exists|i: int|
        0 <= i < records.len() && (#[trigger] records[i] matches RecordModel::OperationStarted {
            id,
            lane: l,
            ..
        } && l == lane && id == run)
}

/// Whether a log ends the run `run` on `lane`.
pub open spec fn ended_on(records: Seq<RecordModel>, lane: Seq<char>, run: Seq<char>) -> bool {
    exists|i: int|
        0 <= i < records.len() && (#[trigger] records[i] matches RecordModel::OperationFinished {
            lane: l,
            run_id,
            ..
        } && l == lane && run_id == run)
}

/// Whether `run` is among the runs of `open`.
pub open spec fn among(open: Seq<OperationModel>, run: Seq<char>) -> bool {
    exists|i: int| 0 <= i < open.len() && (#[trigger] open[i]).run_id == run
}

/// A log with one more record.
pub open spec fn and_record(log: LogModel, record: RecordModel) -> LogModel {
    LogModel { records: log.records.push(record), ..log }
}

proof fn lemma_ended(records: Seq<RecordModel>, lane: Seq<char>, run: Seq<char>)
    ensures
        session_runtime::finished(records, lane, run) == ended_on(records, lane, run),
{
    if ended_on(records, lane, run) {
        let i = choose|i: int|
            0 <= i < records.len() && (#[trigger] records[i] matches RecordModel::OperationFinished {
                lane: l,
                run_id,
                ..
            } && l == lane && run_id == run);
        assert(records[i] is OperationFinished);
    }
    if session_runtime::finished(records, lane, run) {
        let i = choose|i: int|
            0 <= i < records.len() && (#[trigger] records[i] matches RecordModel::OperationFinished {
                lane: l,
                run_id: r,
                ..
            } && l == lane && r == run);
        assert(records[i] is OperationFinished);
    }
}

proof fn lemma_among(records: Seq<RecordModel>, lane: Seq<char>, n: int, run: Seq<char>)
    requires
        0 <= n <= records.len(),
    ensures
        among(session_runtime::open_among(records, lane, n), run) <==> started_on(
            records.take(n),
            lane,
            run,
        ) && !ended_on(records, lane, run),
    decreases n,
{
    let open = session_runtime::open_among(records, lane, n);
    let head = records.take(n);
    if n > 0 {
        lemma_among(records, lane, n - 1, run);
        lemma_ended(records, lane, run);
        let rest = session_runtime::open_among(records, lane, n - 1);
        let before = records.take(n - 1);
        assert(head.last() == records[n - 1]);
        if among(rest, run) {
            let i = choose|i: int| 0 <= i < rest.len() && (#[trigger] rest[i]).run_id == run;
            assert(open[i].run_id == run);
        }
        if among(open, run) && !among(rest, run) {
            let i = choose|i: int| 0 <= i < open.len() && (#[trigger] open[i]).run_id == run;
            assert(i >= rest.len() || rest[i].run_id == run);
            assert(head[n - 1] is OperationStarted);
        }
        if started_on(before, lane, run) {
            let i = choose|i: int|
                0 <= i < before.len() && (
                #[trigger] before[i] matches RecordModel::OperationStarted { id, lane: l, .. } && l
                    == lane && id == run);
            assert(head[i] == before[i]);
        }
        if started_on(head, lane, run) && !started_on(before, lane, run) {
            let i = choose|i: int|
                0 <= i < head.len() && (
                #[trigger] head[i] matches RecordModel::OperationStarted { id, lane: l, .. } && l
                    == lane && id == run);
            assert(i < n - 1 ==> before[i] == head[i]);
            assert(i == n - 1);
            if !ended_on(records, lane, run) {
                assert(open[rest.len() as int].run_id == run);
            }
        }
    }
}

/// An operation is open on a lane exactly where the lane's log starts it and
/// no end of that lane carries the run's own id.
pub proof fn lemma_open_until_its_own_end(log: LogModel, lane: Seq<char>, run: Seq<char>)
    ensures
        among(session_runtime::open_on(log, lane), run) <==> started_on(log.records, lane, run)
            && !ended_on(log.records, lane, run),
        among(session_runtime::recovery_of(log, lane).open_operations, run) <==> started_on(
            log.records,
            lane,
            run,
        ) && !ended_on(log.records, lane, run),
{
    lemma_among(log.records, lane, log.records.len() as int, run);
    assert(log.records.take(log.records.len() as int) =~= log.records);
}

proof fn lemma_same_ends(
    a: Seq<RecordModel>,
    b: Seq<RecordModel>,
    lane: Seq<char>,
    n: int,
)
    requires
        0 <= n <= a.len(),
        n <= b.len(),
        a.take(n) == b.take(n),
        forall|run: Seq<char>|
            among(session_runtime::open_among(a, lane, n), run) || started_on(a, lane, run)
                ==> #[trigger] ended_on(a, lane, run) == ended_on(b, lane, run),
    ensures
        session_runtime::open_among(a, lane, n) == session_runtime::open_among(b, lane, n),
    decreases n,
{
    if n > 0 {
        assert(a.take(n - 1) =~= a.take(n).take(n - 1));
        assert(b.take(n - 1) =~= b.take(n).take(n - 1));
        assert(a[n - 1] == a.take(n)[n - 1]);
        assert(b[n - 1] == b.take(n)[n - 1]);
        assert forall|run: Seq<char>|
            among(session_runtime::open_among(a, lane, n - 1), run) || started_on(
                a,
                lane,
                run,
            ) implies #[trigger] ended_on(a, lane, run) == ended_on(b, lane, run) by {
            lemma_among(a, lane, n - 1, run);
            if started_on(a.take(n - 1), lane, run) {
                let i = choose|i: int|
                    0 <= i < n - 1 && (
                    #[trigger] a.take(n - 1)[i] matches RecordModel::OperationStarted {
                        id,
                        lane: l,
                        ..
                    } && l == lane && id == run);
                assert(a[i] == a.take(n - 1)[i]);
            }
        }
        lemma_same_ends(a, b, lane, n - 1);
        if let RecordModel::OperationStarted { id, lane: l, .. } = a[n - 1] {
            if l == lane {
                assert(started_on(a, lane, id));
                assert(ended_on(a, lane, id) == ended_on(b, lane, id));
                lemma_ended(a, lane, id);
                lemma_ended(b, lane, id);
            }
        }
    }
}

proof fn lemma_pushed_end(
    records: Seq<RecordModel>,
    record: RecordModel,
    lane: Seq<char>,
    run: Seq<char>,
)
    ensures
        ended_on(records.push(record), lane, run) <==> ended_on(records, lane, run) || (
        record matches RecordModel::OperationFinished { lane: l, run_id, .. } && l == lane
            && run_id == run),
{
    let more = records.push(record);
    if ended_on(records, lane, run) {
        let i = choose|i: int|
            0 <= i < records.len() && (#[trigger] records[i] matches RecordModel::OperationFinished {
                lane: l,
                run_id,
                ..
            } && l == lane && run_id == run);
        assert(more[i] == records[i]);
    }
    if ended_on(more, lane, run) {
        let i = choose|i: int|
            0 <= i < more.len() && (#[trigger] more[i] matches RecordModel::OperationFinished {
                lane: l,
                run_id,
                ..
            } && l == lane && run_id == run);
        assert(i < records.len() ==> more[i] == records[i]);
    }
    assert(more[records.len() as int] == record);
}

/// The end of one run leaves the open operations of a lane as they were,
/// unless it is the end of one of them.
pub proof fn lemma_other_end_leaves_open(
    log: LogModel,
    lane: Seq<char>,
    seq: u64,
    ended: Seq<char>,
    run: Seq<char>,
)
    requires
        ended != lane || !started_on(log.records, lane, run),
    ensures
        session_runtime::open_on(
            and_record(log, RecordModel::OperationFinished { seq, lane: ended, run_id: run }),
            lane,
        ) == session_runtime::open_on(log, lane),
{
    let record = RecordModel::OperationFinished { seq, lane: ended, run_id: run };
    let more = log.records.push(record);
    let n = log.records.len() as int;
    assert(more.take(n) =~= log.records.take(n));
    assert forall|r: Seq<char>|
        among(session_runtime::open_among(log.records, lane, n), r) || started_on(
            log.records,
            lane,
            r,
        ) implies #[trigger] ended_on(log.records, lane, r) == ended_on(more, lane, r) by {
        lemma_pushed_end(log.records, record, lane, r);
        lemma_among(log.records, lane, n, r);
        assert(log.records.take(n) =~= log.records);
    }
    lemma_same_ends(log.records, more, lane, n);
    assert(more[n] == record);
}

/// Behind the end of a run on its lane, that run is open no more; every other
/// run is open exactly where it was before.
pub proof fn lemma_own_end_closes(
    log: LogModel,
    lane: Seq<char>,
    seq: u64,
    run: Seq<char>,
    other: Seq<char>,
)
    ensures
        ({
            let after = and_record(
                log,
                RecordModel::OperationFinished { seq, lane, run_id: run },
            );
            &&& !among(session_runtime::open_on(after, lane), run)
            &&& other != run ==> (among(session_runtime::open_on(after, lane), other) <==> among(
                session_runtime::open_on(log, lane),
                other,
            ))
        }),
{
    let record = RecordModel::OperationFinished { seq, lane, run_id: run };
    let after = and_record(log, record);
    lemma_pushed_end(log.records, record, lane, run);
    lemma_pushed_end(log.records, record, lane, other);
    lemma_open_until_its_own_end(after, lane, run);
    lemma_open_until_its_own_end(after, lane, other);
    lemma_open_until_its_own_end(log, lane, other);
    lemma_pushed_start(log.records, record, lane, other);
}

proof fn lemma_pushed_start(
    records: Seq<RecordModel>,
    record: RecordModel,
    lane: Seq<char>,
    run: Seq<char>,
)
    ensures
        started_on(records.push(record), lane, run) <==> started_on(records, lane, run) || (
        record matches RecordModel::OperationStarted { lane: l, id, .. } && l == lane && id == run),
{
    let more = records.push(record);
    if started_on(records, lane, run) {
        let i = choose|i: int|
            0 <= i < records.len() && (#[trigger] records[i] matches RecordModel::OperationStarted {
                id,
                lane: l,
                ..
            } && l == lane && id == run);
        assert(more[i] == records[i]);
    }
    if started_on(more, lane, run) {
        let i = choose|i: int|
            0 <= i < more.len() && (#[trigger] more[i] matches RecordModel::OperationStarted {
                id,
                lane: l,
                ..
            } && l == lane && id == run);
        assert(i < records.len() ==> more[i] == records[i]);
    }
    assert(more[records.len() as int] == record);
}

/// A record that ends no run leaves the operations that are open before it.
/// The start of a run that has no end on its lane adds that run, with what
/// it was started with, behind them; nothing else adds one.
pub proof fn lemma_start_opens(log: LogModel, lane: Seq<char>, record: RecordModel)
    requires
        !(record is OperationFinished),
    ensures
        session_runtime::open_on(and_record(log, record), lane) == (match record {
            RecordModel::OperationStarted {
                id,
                lane: l,
                timestamp,
                source_leaf_id,
                intent,
                ..
            } => if l == lane && !ended_on(log.records, lane, id) {
                session_runtime::open_on(log, lane).push(
                    OperationModel {
                        run_id: id,
                        lane,
                        source_leaf_id,
                        intent,
                        started_at: timestamp,
                    },
                )
            } else {
                session_runtime::open_on(log, lane)
            },
            _ => session_runtime::open_on(log, lane),
        }),
{
    let more = log.records.push(record);
    let n = log.records.len() as int;
    assert(more.take(n) =~= log.records.take(n));
    assert forall|r: Seq<char>|
        among(session_runtime::open_among(log.records, lane, n), r) || started_on(
            log.records,
            lane,
            r,
        ) implies #[trigger] ended_on(log.records, lane, r) == ended_on(more, lane, r) by {
        lemma_pushed_end(log.records, record, lane, r);
    }
    lemma_same_ends(log.records, more, lane, n);
    assert(more[n] == record);
    if let RecordModel::OperationStarted { id, .. } = record {
        lemma_pushed_end(log.records, record, lane, id);
        lemma_ended(more, lane, id);
    }
}

/// One open operation is reported as orphaned and aborted; with none open
/// nothing is aborted; two or more are flagged, all of them by name, and
/// nothing else is done.
pub proof fn lemma_open_operations_are_settled(log: LogModel, lane: Seq<char>)
    ensures
        ({
            let r = session_runtime::recovery_of(log, lane);
            let d = session_runtime::decisions_of(r);
            &&& r.lane == lane
            &&& r.open_operations.len() == 1 ==> r.findings.len() > 0 && r.findings.last() == (
            FindingModel::OrphanedOperation { run_id: r.open_operations[0].run_id }) && d.len() > 0
                && d[0] == (DecisionModel::Abort { run_id: r.open_operations[0].run_id })
            &&& r.open_operations.len() == 0 ==> forall|i: int|
                0 <= i < d.len() ==> #[trigger] d[i] is DropDangling
            &&& r.open_operations.len() >= 2 ==> d.len() == 1 && (
            d[0] matches DecisionModel::FlagCorruption { lane: l, run_ids } && l == lane
                && run_ids.len() == r.open_operations.len() && forall|i: int|
                0 <= i < run_ids.len() ==> #[trigger] run_ids[i] == r.open_operations[i].run_id)
        }),
{
    let r = session_runtime::recovery_of(log, lane);
    session_runtime::lemma_corrupt_means_many_open(log, lane);
    let base = session_runtime::aborts(r.open_operations);
    lemma_drops_follow(base, r.findings, r.findings.len() as int);
}

proof fn lemma_drops_follow(base: Seq<DecisionModel>, findings: Seq<FindingModel>, n: int)
    ensures
        session_runtime::with_drops(base, findings, n).len() >= base.len(),
        forall|i: int|
            0 <= i < base.len() ==> #[trigger] session_runtime::with_drops(base, findings, n)[i]
                == base[i],
        forall|i: int|
            base.len() <= i < session_runtime::with_drops(base, findings, n).len()
                ==> #[trigger] session_runtime::with_drops(base, findings, n)[i] is DropDangling,
    decreases n,
{
    if n > 0 {
        lemma_drops_follow(base, findings, n - 1);
    }
}

/// A write of a lane whose run is not open is reported as dangling; one whose
/// run is open is not. Either way it is pending, under the id that its entry
/// states.
pub proof fn lemma_write_is_pending(
    records: Seq<RecordModel>,
    lane: Seq<char>,
    open: Seq<OperationModel>,
    seq: u64,
    run: Seq<char>,
    target: Seq<char>,
)
    ensures
        ({
            let n = records.len() as int;
            let more = records.push(
                RecordModel::WriteDeferred { seq, lane, run_id: run, target },
            );
            let before = session_runtime::frames_among(records, lane, open, n);
            let after = session_runtime::frames_among(more, lane, open, n + 1);
            &&& after.pending_writes.len() == before.pending_writes.len() + 1
            &&& after.pending_writes.drop_last() == before.pending_writes
            &&& after.pending_writes.last().run_id == run
            &&& after.pending_writes.last().target == target
            &&& after.pending_writes.last().provisioned_id == json::string_at(target, "id"@)
            &&& after.tool_frames == before.tool_frames
            &&& among(open, run) ==> after.findings == before.findings
            &&& !among(open, run) ==> after.findings == before.findings.push(
                FindingModel::DanglingWrite { run_id: run },
            )
        }),
{
    let record = RecordModel::WriteDeferred { seq, lane, run_id: run, target };
    lemma_frames_before(records, record, lane, open, records.len() as int);
    let more = records.push(record);
    assert(more[records.len() as int] == record);
    lemma_open_among(open, run);
    let n = records.len() as int;
    let before = session_runtime::frames_among(records, lane, open, n);
    let after = session_runtime::frames_among(more, lane, open, n + 1);
    assert(after.pending_writes.drop_last() =~= before.pending_writes);
}

/// A tool call of a lane whose run is not open is reported as dangling; one
/// whose run is open is not. Either way it is listed.
pub proof fn lemma_tool_call_is_listed(
    records: Seq<RecordModel>,
    lane: Seq<char>,
    open: Seq<OperationModel>,
    seq: u64,
    run: Seq<char>,
    call: Seq<char>,
    tool: Seq<char>,
    result: Seq<char>,
)
    ensures
        ({
            let n = records.len() as int;
            let more = records.push(
                RecordModel::ToolStarted {
                    seq,
                    lane,
                    run_id: run,
                    tool_call_id: call,
                    tool_name: tool,
                    result_entry_id: result,
                },
            );
            let before = session_runtime::frames_among(records, lane, open, n);
            let after = session_runtime::frames_among(more, lane, open, n + 1);
            &&& after.pending_writes == before.pending_writes
            &&& after.tool_frames.len() == before.tool_frames.len() + 1
            &&& after.tool_frames.drop_last() == before.tool_frames
            &&& after.tool_frames.last().run_id == run
            &&& after.tool_frames.last().tool_call_id == call
            &&& after.tool_frames.last().tool_name == tool
            &&& after.tool_frames.last().result_entry_id == result
            &&& among(open, run) ==> after.findings == before.findings
            &&& !among(open, run) ==> after.findings == before.findings.push(
                FindingModel::DanglingToolFrame { run_id: run, tool_call_id: call },
            )
        }),
{
    let record = RecordModel::ToolStarted {
        seq,
        lane,
        run_id: run,
        tool_call_id: call,
        tool_name: tool,
        result_entry_id: result,
    };
    lemma_frames_before(records, record, lane, open, records.len() as int);
    let more = records.push(record);
    assert(more[records.len() as int] == record);
    lemma_open_among(open, run);
    let n = records.len() as int;
    let before = session_runtime::frames_among(records, lane, open, n);
    let after = session_runtime::frames_among(more, lane, open, n + 1);
    assert(after.tool_frames.drop_last() =~= before.tool_frames);
}

proof fn lemma_open_among(open: Seq<OperationModel>, run: Seq<char>)
    ensures
        session_runtime::is_open(open, run) == among(open, run),
{
    if among(open, run) {
        let i = choose|i: int| 0 <= i < open.len() && (#[trigger] open[i]).run_id == run;
        assert(open[i].run_id == run);
    }
    if session_runtime::is_open(open, run) {
        let i = choose|i: int| 0 <= i < open.len() && (#[trigger] open[i]).run_id == run;
        assert(open[i].run_id == run);
    }
}

proof fn lemma_frames_before(
    records: Seq<RecordModel>,
    record: RecordModel,
    lane: Seq<char>,
    open: Seq<OperationModel>,
    n: int,
)
    requires
        n <= records.len(),
    ensures
        session_runtime::frames_among(records.push(record), lane, open, n)
            == session_runtime::frames_among(records, lane, open, n),
    decreases n,
{
    if n > 0 {
        lemma_frames_before(records, record, lane, open, n - 1);
        assert(records.push(record)[n - 1] == records[n - 1]);
    }
}

/// A record of another lane changes nothing of what is found of a lane, nor
/// how far that lane has come.
pub proof fn lemma_lanes_are_apart(log: LogModel, lane: Seq<char>, record: RecordModel)
    requires
        session_runtime::record_lane(record) != lane,
    ensures
        session_runtime::recovery_of(and_record(log, record), lane)
            == session_runtime::recovery_of(log, lane),
        session_runtime::checkpoint_of(and_record(log, record), lane)
            == session_runtime::checkpoint_of(log, lane),
{
    let more = log.records.push(record);
    let n = log.records.len() as int;
    if let RecordModel::OperationFinished { seq, lane: l, run_id } = record {
        lemma_other_end_leaves_open(log, lane, seq, l, run_id);
    } else {
        lemma_start_opens(log, lane, record);
    }
    let open = session_runtime::open_on(log, lane);
    lemma_frames_before(log.records, record, lane, open, n);
    lemma_last_seq_before(log.records, record, lane, n);
    assert(more[n] == record);
}

proof fn lemma_last_seq_before(
    records: Seq<RecordModel>,
    record: RecordModel,
    lane: Seq<char>,
    n: int,
)
    requires
        n <= records.len(),
    ensures
        session_runtime::last_seq_among(records.push(record), lane, n)
            == session_runtime::last_seq_among(records, lane, n),
    decreases n,
{
    if n > 0 {
        lemma_last_seq_before(records, record, lane, n - 1);
        assert(records.push(record)[n - 1] == records[n - 1]);
    }
}

/// A lane has come as far as its last record says.
pub proof fn lemma_checkpoint_follows_records(log: LogModel, lane: Seq<char>, record: RecordModel)
    requires
        session_runtime::record_lane(record) == lane,
    ensures
        session_runtime::checkpoint_of(and_record(log, record), lane).last_record_seq
            == session_runtime::record_seq(record),
        session_runtime::checkpoint_of(and_record(log, record), lane).leaf_id
            == session_runtime::checkpoint_of(log, lane).leaf_id,
        session_runtime::checkpoint_of(and_record(log, record), lane).last_entry_seq
            == session_runtime::checkpoint_of(log, lane).last_entry_seq,
        session_runtime::record_seq(record) > session_runtime::checkpoint_of(
            log,
            lane,
        ).last_record_seq ==> session_runtime::behind(
            session_runtime::checkpoint_of(log, lane),
            session_runtime::checkpoint_of(and_record(log, record), lane),
        ),
{
    assert(log.records.push(record).last() == record);
}

/// Each operation that recovery finds is told of by two events, first that it
/// started and then that it was aborted at the leaf of its lane.
pub proof fn lemma_recovered_runs_are_told(r: RecoveryModel, n: int, i: int)
    requires
        0 <= i < n <= r.open_operations.len(),
    ensures
        ({
            let told = session_runtime::recovery_events_of(r, n);
            &&& told.len() == 2 * n
            &&& told[2 * i] == (EventModel::RunStart {
                lane: r.lane,
                run_id: r.open_operations[i].run_id,
            })
            &&& told[2 * i + 1] == (EventModel::RunEnd {
                lane: r.lane,
                run_id: r.open_operations[i].run_id,
                outcome: RunEndOutcome::Aborted,
                leaf_id: r.leaf_id.unwrap_or(seq![]),
            })
        }),
    decreases n,
{
    lemma_told_length(r, n - 1);
    if i < n - 1 {
        lemma_recovered_runs_are_told(r, n - 1, i);
    }
}

proof fn lemma_told_length(r: RecoveryModel, n: int)
    requires
        0 <= n,
    ensures
        session_runtime::recovery_events_of(r, n).len() == 2 * n,
    decreases n,
{
    if n > 0 {
        lemma_told_length(r, n - 1);
    }
}

} // verus!
