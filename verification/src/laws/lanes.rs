//! What holds of the lanes of a session taken together.

use vstd::prelude::*;

use crate::paths;
use crate::session_runtime::{
    aborts, behind, clean, corrupt, decisions_of, lane_slot, leaf_of, pointer_from,
    recovered_among, recovery_of, with_drops, with_lane, CheckpointModel, DecisionModel,
    FindingModel, LogModel, PointerModel, RecoveryModel,
};

verus! {

/// Whether `list` names its lanes in order, each once.
pub open spec fn in_order(list: Seq<(Seq<char>, RecoveryModel)>) -> bool {
    forall|i: int, j: int|
        0 <= i < j < list.len() ==> paths::text_before(
            (#[trigger] list[i]).0,
            (#[trigger] list[j]).0,
            0,
        )
}

/// Whether `list` holds `r` for `lane`.
pub open spec fn tells(
    list: Seq<(Seq<char>, RecoveryModel)>,
    lane: Seq<char>,
    r: RecoveryModel,
) -> bool {
    exists|k: int| 0 <= k < list.len() && #[trigger] list[k] == (lane, r)
}

proof fn lemma_slot(list: Seq<(Seq<char>, RecoveryModel)>, lane: Seq<char>, i: int)
    requires
        0 <= i <= list.len(),
        forall|k: int| 0 <= k < i ==> paths::text_before((#[trigger] list[k]).0, lane, 0),
    ensures
        i <= lane_slot(list, lane, i) <= list.len(),
        forall|k: int|
            0 <= k < lane_slot(list, lane, i) ==> paths::text_before(
                (#[trigger] list[k]).0,
                lane,
                0,
            ),
        lane_slot(list, lane, i) < list.len() ==> !paths::text_before(
            list[lane_slot(list, lane, i)].0,
            lane,
            0,
        ),
    decreases list.len() - i,
{
    if i < list.len() && paths::text_before(list[i].0, lane, 0) {
        lemma_slot(list, lane, i + 1);
    }
}

proof fn lemma_with_lane(
    list: Seq<(Seq<char>, RecoveryModel)>,
    lane: Seq<char>,
    r: RecoveryModel,
)
    requires
        in_order(list),
    ensures
        in_order(with_lane(list, lane, r)),
        tells(with_lane(list, lane, r), lane, r),
        forall|other: Seq<char>, s: RecoveryModel|
            other != lane ==> (tells(list, other, s) <==> #[trigger] tells(
                with_lane(list, lane, r),
                other,
                s,
            )),
        forall|s: RecoveryModel| #[trigger] tells(with_lane(list, lane, r), lane, s) ==> s == r,
{
    let k = lane_slot(list, lane, 0);
    lemma_slot(list, lane, 0);
    let out = with_lane(list, lane, r);
    if k < list.len() && list[k].0 == lane {
        assert(out == list.update(k, (lane, r)));
        assert forall|i: int, j: int| 0 <= i < j < out.len() implies paths::text_before(
            (#[trigger] out[i]).0,
            (#[trigger] out[j]).0,
            0,
        ) by {
            assert(out[i].0 == list[i].0);
            assert(out[j].0 == list[j].0);
        }
        assert(out[k] == (lane, r));
        assert forall|other: Seq<char>, s: RecoveryModel| other != lane implies (tells(
            list,
            other,
            s,
        ) <==> #[trigger] tells(out, other, s)) by {
            if tells(list, other, s) {
                let p = choose|p: int| 0 <= p < list.len() && #[trigger] list[p] == (other, s);
                assert(out[p] == (other, s));
            }
            if tells(out, other, s) {
                let p = choose|p: int| 0 <= p < out.len() && #[trigger] out[p] == (other, s);
                assert(list[p] == (other, s));
            }
        }
    } else {
        assert(out == list.insert(k, (lane, r)));
        assert forall|p: int| k <= p < list.len() implies paths::text_before(
            lane,
            (#[trigger] list[p]).0,
            0,
        ) by {
            paths::lemma_text_order(lane, list[k].0, list[p].0);
        }
        assert forall|i: int, j: int| 0 <= i < j < out.len() implies paths::text_before(
            (#[trigger] out[i]).0,
            (#[trigger] out[j]).0,
            0,
        ) by {
            let a = if i < k {
                i
            } else {
                i - 1
            };
            let b = if j < k {
                j
            } else {
                j - 1
            };
            if i != k {
                assert(out[i] == list[a]);
            }
            if j != k {
                assert(out[j] == list[b]);
            }
        }
        assert(out[k] == (lane, r));
        assert forall|other: Seq<char>, s: RecoveryModel| other != lane implies (tells(
            list,
            other,
            s,
        ) <==> #[trigger] tells(out, other, s)) by {
            if tells(list, other, s) {
                let p = choose|p: int| 0 <= p < list.len() && #[trigger] list[p] == (other, s);
                if p < k {
                    assert(out[p] == (other, s));
                } else {
                    assert(out[p + 1] == (other, s));
                }
            }
            if tells(out, other, s) {
                let p = choose|p: int| 0 <= p < out.len() && #[trigger] out[p] == (other, s);
                if p < k {
                    assert(list[p] == (other, s));
                } else {
                    assert(list[p - 1] == (other, s));
                }
            }
        }
    }
    assert forall|s: RecoveryModel| #[trigger] tells(out, lane, s) implies s == r by {
        let p = choose|p: int| 0 <= p < out.len() && #[trigger] out[p] == (lane, s);
        paths::lemma_text_order(lane, lane, lane);
        if p < k {
            assert(paths::text_before(out[p].0, out[k].0, 0));
        } else if p > k {
            assert(paths::text_before(out[k].0, out[p].0, 0));
        }
    }
}

/// Whether one of the first `n` pointers is of `lane`.
pub open spec fn points(log: LogModel, lane: Seq<char>, n: int) -> bool {
    exists|i: int| 0 <= i < n && (#[trigger] log.lanes[i]).lane == lane
}

proof fn lemma_lanes_among(log: LogModel, n: int)
    requires
        0 <= n <= log.lanes.len(),
    ensures
        in_order(recovered_among(log, n)),
        forall|lane: Seq<char>, r: RecoveryModel| #[trigger]
            tells(recovered_among(log, n), lane, r) <==> (points(log, lane, n) && r == recovery_of(
                log,
                lane,
            )),
    decreases n,
{
    let out = recovered_among(log, n);
    if n > 0 {
        lemma_lanes_among(log, n - 1);
        let last = log.lanes[n - 1].lane;
        lemma_with_lane(recovered_among(log, n - 1), last, recovery_of(log, last));
        assert forall|lane: Seq<char>, r: RecoveryModel| #[trigger] tells(out, lane, r) <==> (
        points(log, lane, n) && r == recovery_of(log, lane)) by {
            if lane == last {
                assert(log.lanes[n - 1].lane == lane);
                assert(points(log, lane, n));
            } else {
                if points(log, lane, n) {
                    let i = choose|i: int| 0 <= i < n && (#[trigger] log.lanes[i]).lane == lane;
                    assert(log.lanes[i].lane == lane && i < n - 1);
                    assert(points(log, lane, n - 1));
                }
                if points(log, lane, n - 1) {
                    let i = choose|i: int|
                        0 <= i < n - 1 && (#[trigger] log.lanes[i]).lane == lane;
                    assert(log.lanes[i].lane == lane && i < n);
                }
                assert(tells(out, lane, r) == tells(recovered_among(log, n - 1), lane, r));
            }
        }
    }
}

/// Recovery of all lanes names each lane of the session once and no other, in
/// the order of their names, each with what recovery of that lane finds.
pub proof fn lemma_every_lane_is_recovered(log: LogModel)
    ensures
        ({
            let found = recovered_among(log, log.lanes.len() as int);
            &&& forall|i: int|
                0 <= i < log.lanes.len() ==> tells(
                    found,
                    (#[trigger] log.lanes[i]).lane,
                    recovery_of(log, log.lanes[i].lane),
                )
            &&& forall|k: int|
                0 <= k < found.len() ==> points(log, (#[trigger] found[k]).0, log.lanes.len() as int)
                    && found[k].1 == recovery_of(log, found[k].0) && found[k].1.lane == found[k].0
            &&& forall|j: int, k: int|
                0 <= j < k < found.len() ==> (#[trigger] found[j]).0 != (#[trigger] found[k]).0
        }),
{
    let n = log.lanes.len() as int;
    let found = recovered_among(log, n);
    lemma_lanes_among(log, n);
    assert forall|i: int| 0 <= i < n implies tells(
        found,
        (#[trigger] log.lanes[i]).lane,
        recovery_of(log, log.lanes[i].lane),
    ) by {
        assert(points(log, log.lanes[i].lane, n));
    }
    assert forall|k: int| 0 <= k < found.len() implies points(log, (#[trigger] found[k]).0, n)
        && found[k].1 == recovery_of(log, found[k].0) by {
        assert(found[k] == (found[k].0, found[k].1));
        assert(tells(found, found[k].0, found[k].1));
    }
    assert forall|j: int, k: int| 0 <= j < k < found.len() implies (#[trigger] found[j]).0 != (
    #[trigger] found[k]).0 by {
        paths::lemma_text_order(found[j].0, found[j].0, found[j].0);
    }
}

proof fn lemma_pointer(lanes: Seq<PointerModel>, lane: Seq<char>, i: int)
    requires
        0 <= i <= lanes.len(),
    ensures
        match pointer_from(lanes, lane, i) {
            Some(p) => exists|k: int|
                i <= k < lanes.len() && #[trigger] lanes[k] == p && p.lane == lane && (forall|j: int|
                    i <= j < k ==> (#[trigger] lanes[j]).lane != lane),
            None => forall|k: int| i <= k < lanes.len() ==> (#[trigger] lanes[k]).lane != lane,
        },
    decreases lanes.len() - i,
{
    if i < lanes.len() {
        if lanes[i].lane == lane {
            assert(lanes[i] == lanes[i]);
        } else {
            lemma_pointer(lanes, lane, i + 1);
            if let Some(p) = pointer_from(lanes, lane, i + 1) {
                let k = choose|k: int|
                    i + 1 <= k < lanes.len() && #[trigger] lanes[k] == p && p.lane == lane && (
                    forall|j: int| i + 1 <= j < k ==> (#[trigger] lanes[j]).lane != lane);
                assert(lanes[k] == p);
            }
        }
    }
}

/// The leaf of a lane is the one that its own pointer names: pointers of other
/// lanes do not count, and a lane without a pointer has none.
pub proof fn lemma_leaf_is_of_its_lane(log: LogModel, lane: Seq<char>)
    ensures
        recovery_of(log, lane).leaf_id == leaf_of(log, lane),
        !points(log, lane, log.lanes.len() as int) ==> leaf_of(log, lane) is None,
        forall|k: int|
            0 <= k < log.lanes.len() && (#[trigger] log.lanes[k]).lane == lane && !points(
                log,
                lane,
                k,
            ) ==> leaf_of(log, lane) == log.lanes[k].leaf_id,
{
    lemma_pointer(log.lanes, lane, 0);
    if !points(log, lane, log.lanes.len() as int) {
        assert(pointer_from(log.lanes, lane, 0) is None);
    }
    assert forall|k: int|
        0 <= k < log.lanes.len() && (#[trigger] log.lanes[k]).lane == lane && !points(
            log,
            lane,
            k,
        ) implies leaf_of(log, lane) == log.lanes[k].leaf_id by {
        let p = pointer_from(log.lanes, lane, 0)->0;
        let at = choose|at: int|
            0 <= at < log.lanes.len() && #[trigger] log.lanes[at] == p && p.lane == lane && (forall|
                j: int,
            |
                0 <= j < at ==> (#[trigger] log.lanes[j]).lane != lane);
        assert(log.lanes[at].lane == lane);
    }
}

/// Which of two checkpoints is behind is told by their records; their entries
/// tell only where the records are as many.
pub proof fn lemma_records_tell_first(a: CheckpointModel, b: CheckpointModel)
    ensures
        a.last_record_seq < b.last_record_seq ==> behind(a, b) && !behind(b, a),
        a.last_record_seq == b.last_record_seq && a.last_entry_seq < b.last_entry_seq ==> behind(
            a,
            b,
        ) && !behind(b, a),
        a.last_record_seq == b.last_record_seq && a.last_entry_seq == b.last_entry_seq ==> !behind(
            a,
            b,
        ),
{
}

/// Nothing is done about a clean lane, and a lane with an open operation, a
/// pending write or a finding is not clean.
pub proof fn lemma_clean_lane_is_left_alone(r: RecoveryModel)
    ensures
        clean(r) ==> decisions_of(r).len() == 0,
        r.open_operations.len() > 0 ==> !clean(r),
        r.pending_writes.len() > 0 ==> !clean(r),
        r.findings.len() > 0 ==> !clean(r),
        r.open_operations.len() == 0 && r.pending_writes.len() == 0 && r.findings.len() == 0
            ==> clean(r),
{
    if clean(r) {
        assert(!corrupt(r));
        assert(with_drops(aborts(r.open_operations), r.findings, 0) == aborts(r.open_operations));
    }
}

proof fn lemma_drops_are_single(
    decisions: Seq<DecisionModel>,
    findings: Seq<FindingModel>,
    n: int,
)
    requires
        0 <= n <= findings.len(),
        forall|i: int| 0 <= i < decisions.len() ==> #[trigger] decisions[i] is Abort,
    ensures
        forall|i: int, j: int|
            0 <= i < j < with_drops(decisions, findings, n).len() && (#[trigger] with_drops(
                decisions,
                findings,
                n,
            )[i]) is DropDangling ==> with_drops(decisions, findings, n)[i] != #[trigger] with_drops(
                decisions,
                findings,
                n,
            )[j],
    decreases n,
{
    if n > 0 {
        lemma_drops_are_single(decisions, findings, n - 1);
        let rest = with_drops(decisions, findings, n - 1);
        let out = with_drops(decisions, findings, n);
        assert forall|i: int, j: int|
            0 <= i < j < out.len() && (#[trigger] out[i]) is DropDangling implies out[i]
            != #[trigger] out[j] by {
            if j < rest.len() {
                assert(rest[i] == out[i] && rest[j] == out[j]);
            } else {
                assert(rest[i] == out[i]);
                assert(rest.contains(rest[i]));
            }
        }
    }
}

/// However often a run dangles, it is dropped once.
pub proof fn lemma_run_is_dropped_once(r: RecoveryModel, i: int, j: int)
    requires
        0 <= i < j < decisions_of(r).len(),
        decisions_of(r)[i] is DropDangling,
    ensures
        decisions_of(r)[i] != decisions_of(r)[j],
{
    if !corrupt(r) {
        lemma_drops_are_single(aborts(r.open_operations), r.findings, r.findings.len() as int);
    }
}

} // verus!
