use rpi::events::{
    watch_listener, Delivery, HarnessEvent, HarnessEventBus, HarnessWatcher, RunEndOutcome,
};
use rpi::session_runtime::{
    recover_all_lanes, LanePointer, LaneRecord, LaneRecovery, OpenOperation, OperationIntent,
    RecoveryDecision, RecoveryFinding, SessionLog, SessionRuntime,
};

fn session() -> SessionLog {
    SessionLog { records: Vec::new(), lanes: Vec::new() }
}

fn run() -> OperationIntent {
    OperationIntent::Run {
        original_prompt: Vec::new(),
        initial_messages: Vec::new(),
        system_prompt_override: None,
        resume_data: None,
    }
}

fn started(run_id: &str, lane: &str, seq: u64) -> LaneRecord {
    LaneRecord::OperationStarted {
        id: run_id.to_string(),
        seq,
        lane: lane.to_string(),
        timestamp: 0,
        source_leaf_id: None,
        intent: run(),
    }
}

fn pointer(lane: &str) -> LanePointer {
    LanePointer { lane: lane.to_string(), leaf_id: Some("leaf".to_string()), last_entry_seq: 7 }
}

#[test]
fn clean_lane_recovers_to_empty_report() {
    let runtime = SessionRuntime::new(session());
    let report = runtime.recover_lane("main");
    assert!(report.is_clean());
    assert!(!report.is_corrupt());
    assert!(runtime.reconcile(&report).is_empty());
}

#[test]
fn open_operation_is_orphaned_and_reconciled_to_abort() {
    let mut log = session();
    log.records.push(started("run-1", "main", 1));
    let runtime = SessionRuntime::new(log);

    let report = runtime.recover_lane("main");
    assert_eq!(report.open_operations.len(), 1);
    assert!(!report.is_clean());
    assert!(!report.is_corrupt());
    assert_eq!(
        report.sole_open_operation().map(|o| o.run_id.as_str()),
        Some("run-1")
    );
    assert!(report
        .findings
        .iter()
        .any(|f| matches!(f, RecoveryFinding::OrphanedOperation { run_id } if run_id == "run-1")));

    let decisions = runtime.reconcile(&report);
    assert_eq!(decisions.len(), 1);
    assert!(matches!(&decisions[0], RecoveryDecision::Abort { run_id } if run_id == "run-1"));
    assert_eq!(decisions[0].run_id(), Some("run-1"));
}

#[test]
fn admit_rejects_when_an_operation_is_open() {
    let mut runtime = SessionRuntime::new(session());
    assert!(runtime.admit_operation("main").is_ok());

    runtime.session.records.push(started("run-1", "main", 1));
    assert_eq!(
        runtime.admit_operation("main").unwrap_err(),
        "lane 'main' already has an open operation (run-1)"
    );
    assert!(runtime.admit_operation("other").is_ok());
    runtime.session.records.push(LaneRecord::OperationFinished {
        seq: 2,
        lane: "main".to_string(),
        run_id: "run-1".to_string(),
    });
    assert!(runtime.admit_operation("main").is_ok());
}

fn open(run_id: &str) -> OpenOperation {
    OpenOperation {
        run_id: run_id.to_string(),
        lane: "main".to_string(),
        source_leaf_id: None,
        intent: run(),
        started_at: 0,
    }
}

#[test]
fn two_open_operations_are_reported_as_corruption() {
    let mut log = session();
    log.records.push(started("run-1", "main", 1));
    log.records.push(started("run-2", "main", 2));
    let runtime = SessionRuntime::new(log);
    let by_hand = LaneRecovery {
        lane: "main".to_string(),
        leaf_id: None,
        open_operations: vec![open("run-1"), open("run-2")],
        pending_writes: Vec::new(),
        tool_frames: Vec::new(),
        findings: vec![RecoveryFinding::MultipleOpenOperations {
            lane: "main".to_string(),
            run_ids: vec!["run-1".to_string(), "run-2".to_string()],
        }],
    };
    for report in [by_hand, runtime.recover_lane("main")] {
        assert!(report.is_corrupt());
        assert!(report.sole_open_operation().is_none());
        let decisions = runtime.reconcile(&report);
        assert!(matches!(
            decisions.as_slice(),
            [RecoveryDecision::FlagCorruption { lane, run_ids }]
                if lane == "main" && run_ids == &vec!["run-1".to_string(), "run-2".to_string()]
        ));
        assert_eq!(decisions[0].run_id(), None);
    }
}

#[test]
fn dangling_write_is_flagged_and_dropped() {
    let mut log = session();
    log.records.push(LaneRecord::WriteDeferred {
        seq: 1,
        lane: "main".to_string(),
        run_id: "ghost-run".to_string(),
        target: "{\"id\":\"prov-1\"}".to_string(),
    });
    let runtime = SessionRuntime::new(log);

    let report = runtime.recover_lane("main");
    assert_eq!(report.pending_writes.len(), 1);
    assert_eq!(report.pending_writes[0].provisioned_id.as_deref(), Some("prov-1"));
    assert!(report
        .findings
        .iter()
        .any(|f| matches!(f, RecoveryFinding::DanglingWrite { run_id } if run_id == "ghost-run")));
    let decisions = runtime.reconcile(&report);
    assert_eq!(decisions.len(), 1);
    assert!(
        matches!(&decisions[0], RecoveryDecision::DropDangling { run_id } if run_id == "ghost-run")
    );
}

#[test]
fn dangling_frames_of_one_run_are_dropped_once() {
    let mut log = session();
    let write = LaneRecord::WriteDeferred {
        seq: 1,
        lane: "main".to_string(),
        run_id: "ghost".to_string(),
        target: "{}".to_string(),
    };
    let tool = LaneRecord::ToolStarted {
        seq: 2,
        lane: "main".to_string(),
        run_id: "ghost".to_string(),
        tool_call_id: "call-1".to_string(),
        tool_name: "bash".to_string(),
        result_entry_id: "e-1".to_string(),
    };
    log.records.push(write);
    log.records.push(tool);
    log.records.push(LaneRecord::Other { seq: 3, lane: "main".to_string() });
    let runtime = SessionRuntime::new(log);
    let report = runtime.recover_lane("main");
    assert_eq!(report.tool_frames.len(), 1);
    assert_eq!(report.tool_frames[0].tool_name, "bash");
    assert_eq!(report.findings.len(), 2);
    assert_eq!(report.findings[0].code(), "dangling_write");
    assert_eq!(report.findings[1].code(), "dangling_tool_frame");
    assert_eq!(runtime.reconcile(&report).len(), 1);
}

#[test]
fn checkpoint_detects_progress() {
    let mut runtime = SessionRuntime::new(session());
    let before = runtime.checkpoint("main");
    assert!(!before.has_open_operation);

    runtime.session.records.push(started("run-1", "main", 1));
    let after = runtime.checkpoint("main");
    assert!(after.has_open_operation);
    assert!(before.is_behind(&after));
    assert!(!after.is_behind(&before));
    assert!(!after.is_behind(&after));
    assert_eq!(after.last_record_seq, 1);
    assert_eq!(after.last_entry_seq, 0);
}

#[test]
fn recover_all_lanes_sweeps_every_lane() {
    let mut log = session();
    log.records.push(started("run-main", "main", 1));
    log.lanes.push(pointer("zeta"));
    log.lanes.push(pointer("main"));
    let runtime = SessionRuntime::new(log);
    let all = recover_all_lanes(&runtime);
    assert_eq!(all.len(), 2);
    assert_eq!(all[0].lane, "main");
    assert_eq!(all[1].lane, "zeta");
    assert_eq!(all[0].recovery.open_operations.len(), 1);
    assert_eq!(all[0].recovery.leaf_id.as_deref(), Some("leaf"));
    assert!(all[1].recovery.is_clean());
}

#[test]
fn recovered_operations_are_told_as_aborted_runs() {
    let mut log = session();
    log.records.push(started("run-1", "main", 1));
    log.lanes.push(pointer("main"));
    let runtime = SessionRuntime::new(log);
    let report = runtime.recover_lane("main");
    let events = runtime.emit_recovery_events(&report);
    assert_eq!(events.len(), 2);
    assert!(matches!(&events[0], HarnessEvent::RunStart { lane, run_id } if lane == "main" && run_id == "run-1"));
    assert!(matches!(
        &events[1],
        HarnessEvent::RunEnd { run_id, outcome: RunEndOutcome::Aborted, leaf_id, .. }
            if run_id == "run-1" && leaf_id == "leaf"
    ));
    assert_eq!(report.open_operations[0].kind(), "run");
    assert_eq!(OperationIntent::Compaction.kind(), "compaction");
    assert_eq!(OperationIntent::Navigation.kind(), "navigation");
    assert_eq!(report.findings[0].code(), "orphaned_operation");
}

fn run_start(run_id: &str) -> HarnessEvent {
    HarnessEvent::RunStart { lane: "main".to_string(), run_id: run_id.to_string() }
}

fn count(deliveries: &[Delivery], listener: u64) -> usize {
    deliveries.iter().filter(|d| d.listener == listener).count()
}

#[test]
fn watcher_receives_events_and_stops_on_drop() {
    let mut bus = HarnessEventBus::new();
    let mut received = 0;
    let handle = bus.watch();
    received += count(&bus.start(&handle, watch_listener(5)), 5);
    let mut watcher = HarnessWatcher::new(handle);
    assert!(watcher.is_active());

    received += count(&bus.emit(&run_start("r1")), 5);
    assert_eq!(received, 1);

    watcher.unsubscribe(&mut bus);
    assert!(!watcher.is_active());
    received += count(&bus.emit(&run_start("r2")), 5);
    assert_eq!(received, 1);

    watcher.unsubscribe(&mut bus);
    assert!(bus.watches.is_empty());
}

#[test]
fn leak_keeps_watch_alive() {
    let mut bus = HarnessEventBus::new();
    let mut received = 0;
    let handle = bus.watch();
    received += count(&bus.start(&handle, watch_listener(5)), 5);
    let leaked = HarnessWatcher::new(handle).leak();

    received += count(&bus.emit(&run_start("r1")), 5);
    assert_eq!(received, 1);

    assert_eq!(leaked, handle);
    received += count(&bus.emit(&run_start("r2")), 5);
    assert_eq!(received, 2);
    assert_eq!(HarnessWatcher::new(handle).into_inner(), handle);
}

#[test]
fn events_before_the_start_are_kept_in_order() {
    let mut bus = HarnessEventBus::new();
    let first = bus.watch();
    let second = bus.watch();
    assert_ne!(first, second);
    assert!(bus.emit(&run_start("r1")).is_empty());
    assert!(bus.emit(&run_start("r2")).is_empty());
    let flushed = bus.start(&first, watch_listener(1));
    let runs: Vec<String> = flushed
        .iter()
        .map(|d| match &d.event {
            HarnessEvent::RunStart { run_id, .. } => run_id.clone(),
            HarnessEvent::RunEnd { run_id, .. } => run_id.clone(),
        })
        .collect();
    assert_eq!(runs, vec!["r1".to_string(), "r2".to_string()]);
    assert_eq!(bus.emit(&run_start("r3")).len(), 1);
    assert_eq!(bus.start(&second, watch_listener(2)).len(), 3);
    bus.unsubscribe(&first);
    assert_eq!(bus.emit(&run_start("r4")).len(), 1);
}

#[test]
fn an_open_operation_keeps_what_it_was_started_with() {
    let mut log = session();
    log.records.push(LaneRecord::OperationStarted {
        id: "run-1".to_string(),
        seq: 1,
        lane: "main".to_string(),
        timestamp: 5,
        source_leaf_id: None,
        intent: OperationIntent::Run {
            original_prompt: vec![r#"{"text":"do"}"#.to_string()],
            initial_messages: vec!["{}".to_string(), "[]".to_string()],
            system_prompt_override: Some("short".to_string()),
            resume_data: Some("7".to_string()),
        },
    });
    let report = SessionRuntime::new(log).recover_lane("main");
    assert_eq!(report.open_operations.len(), 1);
    match &report.open_operations[0].intent {
        OperationIntent::Run {
            original_prompt,
            initial_messages,
            system_prompt_override,
            resume_data,
        } => {
            assert_eq!(*original_prompt, [r#"{"text":"do"}"#]);
            assert_eq!(*initial_messages, ["{}", "[]"]);
            assert_eq!(system_prompt_override.as_deref(), Some("short"));
            assert_eq!(resume_data.as_deref(), Some("7"));
        }
        _ => panic!("a run was started"),
    }
}
