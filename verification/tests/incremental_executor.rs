use laminaria_run::incremental_executor::{SupervisorEvent, SupervisorState};
use laminaria_run::incremental_executor::ActionStateTag::{BlockedDependency, Ready};
use laminaria_run::incremental_executor::{ActionChangeFacts, ActionStateTag, ActionWait, WaitTracker};
use laminaria_run::incremental_executor::{CpuSlotTrace, ExecutionReport, SlotEvent, SlotEventKind};

fn report_from(events: Vec<(&str, SlotEventKind)>) -> ExecutionReport {
    let mut report = ExecutionReport::new();
    for (i, (action_id, kind)) in events.into_iter().enumerate() {
        report.slot_events.push(SlotEvent {
            action_id: action_id.to_string(),
            kind,
            at: i as u64,
        });
    }
    report
}

#[test]
fn verify_slot_invariants_catches_every_kind_of_violation_and_accepts_a_valid_timeline() {
    let budget = 2usize;

    let valid = report_from(vec![
        ("a", SlotEventKind::Acquired),
        ("b", SlotEventKind::Acquired),
        ("a", SlotEventKind::Released),
        ("b", SlotEventKind::Released),
    ]);
    assert!(valid.verify_slot_invariants(budget).is_ok());

    let double_acquire = report_from(vec![("a", SlotEventKind::Acquired), ("a", SlotEventKind::Acquired)]);
    assert!(
        double_acquire.verify_slot_invariants(budget).is_err(),
        "must reject an action acquiring a slot it already holds"
    );

    let over_budget = report_from(vec![
        ("a", SlotEventKind::Acquired),
        ("b", SlotEventKind::Acquired),
        ("c", SlotEventKind::Acquired),
    ]);
    assert!(
        over_budget.verify_slot_invariants(budget).is_err(),
        "must reject held_slots exceeding cpu_budget"
    );

    let unreleased = report_from(vec![("a", SlotEventKind::Acquired)]);
    assert!(
        unreleased.verify_slot_invariants(budget).is_err(),
        "must reject an action that never releases its slot"
    );

    let released_without_acquire = report_from(vec![("a", SlotEventKind::Released)]);
    assert!(
        released_without_acquire.verify_slot_invariants(budget).is_err(),
        "must reject a release with no matching acquire"
    );
}

#[test]
fn violation_messages_name_the_action_and_the_counts() {
    let twice = report_from(vec![("a", SlotEventKind::Acquired), ("a", SlotEventKind::Acquired)]);
    assert_eq!(
        twice.verify_slot_invariants(2).unwrap_err(),
        "action \"a\" acquired a CPU slot twice without an intervening release"
    );
    let over = report_from(vec![
        ("a", SlotEventKind::Acquired),
        ("b", SlotEventKind::Acquired),
        ("c", SlotEventKind::Acquired),
    ]);
    assert_eq!(
        over.verify_slot_invariants(2).unwrap_err(),
        "held_slots (3) exceeded cpu_budget (2) when action \"c\" acquired its slot"
    );
    let never = report_from(vec![("z", SlotEventKind::Released)]);
    assert_eq!(
        never.verify_slot_invariants(2).unwrap_err(),
        "action \"z\" released a CPU slot it never held"
    );
    let still = report_from(vec![("a", SlotEventKind::Acquired), ("b", SlotEventKind::Acquired)]);
    assert_eq!(
        still.verify_slot_invariants(2).unwrap_err(),
        "2 action(s) still hold a CPU slot after the run completed: {\"a\", \"b\"}"
    );
}

#[test]
fn slot_queries_find_first_acquisition_and_last_release() {
    let report = report_from(vec![
        ("a", SlotEventKind::Released),
        ("b", SlotEventKind::Acquired),
        ("a", SlotEventKind::Acquired),
        ("a", SlotEventKind::Released),
        ("a", SlotEventKind::Acquired),
        ("a", SlotEventKind::Released),
        ("b", SlotEventKind::Released),
    ]);
    assert_eq!(report.time_to_first_useful_work(), Some(1));
    assert_eq!(report.slot_acquired_at("a"), Some(2));
    assert_eq!(report.slot_released_at("a"), Some(5));
    assert_eq!(report.slot_acquired_at("c"), None);
    assert_eq!(ExecutionReport::new().time_to_first_useful_work(), None);
}

#[test]
fn trace_peak_matches_the_replayed_timeline() {
    let mut trace = CpuSlotTrace::new();
    trace.enter("a", 1);
    trace.enter("b", 2);
    trace.release("a", 3);
    trace.enter("c", 4);
    trace.enter("d", 5);
    trace.release("b", 6);
    trace.release("c", 7);
    trace.release("d", 8);
    assert_eq!(trace.peak_concurrent(), 3);
    let events = trace.slot_events();
    assert_eq!(events.len(), 8);
    assert_eq!(events[0].kind, SlotEventKind::Acquired);
    let mut report = ExecutionReport::new();
    report.record_trace(&trace);
    assert_eq!(report.peak_concurrent(), 3);
    assert!(report.verify_slot_invariants(3).is_ok());
    assert!(report.verify_slot_invariants(2).is_err());
}

fn change(id: &str, from: Option<ActionStateTag>, to: Option<ActionStateTag>, introduces: bool) -> ActionChangeFacts {
    ActionChangeFacts { action_id: id.to_string(), from_state: from, to_state: to, introduces_action: introduces }
}

#[test]
fn dependency_waits_are_measured_from_blocked_to_ready() {
    let mut tracker = WaitTracker::new(100);
    let mut known: Vec<String> = vec!["a".to_string()];
    // `b` is introduced blocked, `a` is ready at once.
    let (ready, waits) = tracker.apply_changes(
        &vec![change("b", None, Some(BlockedDependency), true), change("a", None, Some(Ready), false)],
        &mut known,
        1_000,
    );
    assert_eq!(ready, vec!["a".to_string()]);
    assert!(waits.is_empty());
    assert_eq!(known, vec!["a".to_string(), "b".to_string()]);
    // Blocked again: the first start is kept.
    tracker.apply_changes(&vec![change("b", None, Some(BlockedDependency), false)], &mut known, 2_000);
    let (ready, waits) =
        tracker.apply_changes(&vec![change("b", Some(BlockedDependency), Some(Ready), false)], &mut known, 5_000);
    assert_eq!(ready, vec!["b".to_string()]);
    assert_eq!(waits, vec![ActionWait { action_id: "b".to_string(), wait: 4_000 }]);
    // A wait that started before the session was observed counts from its start.
    let (_, waits) =
        tracker.apply_changes(&vec![change("c", Some(BlockedDependency), Some(Ready), true)], &mut known, 700);
    assert_eq!(waits, vec![ActionWait { action_id: "c".to_string(), wait: 600 }]);
}

#[test]
fn the_supervisor_finishes_when_every_known_action_is_reported() {
    let mut s = SupervisorState::new(2);
    assert!(!s.finished());
    s.step(SupervisorEvent::WorkerReported);
    s.step(SupervisorEvent::ReadyQueued(1));
    s.step(SupervisorEvent::DiscoveryApplied { diagnostic: false, changed_actions: 0 });
    s.step(SupervisorEvent::DiscoveryApplied { diagnostic: true, changed_actions: 3 });
    s.step(SupervisorEvent::DiscoveryApplied { diagnostic: false, changed_actions: 2 });
    assert_eq!(s.dynamic_expansion_count, 1);
    s.step(SupervisorEvent::WorkerReported);
    assert!(!s.finished());
    s.step(SupervisorEvent::WorkerReported);
    assert!(s.finished());
}

use laminaria_run::incremental_executor::{
    check_source_snapshot, dispatch_need, missing_program_text, DispatchFacts, DispatchKind, DispatchNeed,
    SourceProvenanceFacts,
};

fn facts(kind: DispatchKind) -> DispatchFacts {
    DispatchFacts {
        action_id: "lower-1".to_string(),
        kind,
        has_compiler_work: true,
        source_provenance: Some(SourceProvenanceFacts {
            source_file: "src/lib.rs".to_string(),
            source_snapshot_id: "snap-1".to_string(),
        }),
        semantic_input_artifact_ids: vec!["lower-1".to_string()],
        requested_functions: vec!["add".to_string()],
    }
}

#[test]
fn dispatch_refuses_what_it_cannot_run_and_names_what_it_needs() {
    let mut f = facts(DispatchKind::LowerSource);
    assert_eq!(
        dispatch_need(&f),
        Ok(DispatchNeed::Source { source_file: "src/lib.rs".to_string(), claimed_snapshot_id: "snap-1".to_string() })
    );
    f.has_compiler_work = false;
    assert_eq!(dispatch_need(&f), Err("action \"lower-1\" has no compiler_work".to_string()));
    let mut f = facts(DispatchKind::DiscoverSourceDependencies);
    f.source_provenance = None;
    assert_eq!(dispatch_need(&f), Err("missing source_provenance".to_string()));
    assert_eq!(dispatch_need(&facts(DispatchKind::ValidateIr)), Ok(DispatchNeed::Candidate { input_id: "lower-1".to_string() }));
    assert_eq!(
        dispatch_need(&facts(DispatchKind::EvaluateEvidence)),
        Ok(DispatchNeed::Validated { input_id: "lower-1".to_string(), function_name: "add".to_string() })
    );
    let mut f = facts(DispatchKind::EvaluateEvidence);
    f.requested_functions.clear();
    assert_eq!(dispatch_need(&f), Err("missing requested_functions[0]".to_string()));
    f.semantic_input_artifact_ids.clear();
    assert_eq!(dispatch_need(&f), Err("missing semantic_input_artifact_ids".to_string()));
    assert_eq!(
        dispatch_need(&facts(DispatchKind::Unsupported("CargoBuild".to_string()))),
        Err("unsupported action kind for this executor: CargoBuild".to_string())
    );
}

#[test]
fn a_source_snapshot_mismatch_names_both_snapshots() {
    assert_eq!(check_source_snapshot("a1", "a1"), Ok(()));
    assert_eq!(
        check_source_snapshot("a1", "b2"),
        Err("source snapshot mismatch: claimed \"a1\", actual \"b2\"".to_string())
    );
    assert_eq!(missing_program_text(false, "x"), "no candidate Program for \"x\"");
    assert_eq!(missing_program_text(true, "x"), "no validated Program for \"x\"");
}

use laminaria_run::incremental_executor::{discovery_event_id, producer_event, ProducerEvent, WorkerReport};

#[test]
fn worker_reports_become_producer_and_discovery_events() {
    let done = WorkerReport::Completed { action_id: "lower-a".to_string() };
    assert_eq!(
        producer_event(&done),
        ProducerEvent::Completed { event_id: "evt-completed-lower-a".to_string(), action_id: "lower-a".to_string() }
    );
    assert_eq!(discovery_event_id(&done), None);
    let failed = WorkerReport::Failed { action_id: "v".to_string(), detail: "boom".to_string() };
    assert_eq!(
        producer_event(&failed),
        ProducerEvent::Failed {
            event_id: "evt-failed-v".to_string(),
            action_id: "v".to_string(),
            failure_reason: "boom".to_string()
        }
    );
    let found = WorkerReport::Discovered { action_id: "d".to_string(), names: vec!["f".to_string()] };
    assert_eq!(
        producer_event(&found),
        ProducerEvent::Completed { event_id: "evt-completed-d".to_string(), action_id: "d".to_string() }
    );
    assert_eq!(discovery_event_id(&found), Some("evt-discovered-d".to_string()));
    assert_eq!(discovery_event_id(&WorkerReport::Discovered { action_id: "d".to_string(), names: vec![] }), None);
}
