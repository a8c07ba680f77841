use laminaria_run::resource_scheduler::{
    LifecycleState, NestedParallelism, PhysicalWorkContract, PhysicalWorkInstance, ResourceAmount,
    ResourceDeficit, ResourceScheduler, SchedulerContractError, WaitReason, WorkUnitClaim,
};

fn amount(cpu: u32, memory: u64, io: u32, processes: u32) -> ResourceAmount {
    ResourceAmount {
        cpu_slots: cpu,
        memory_bytes: memory,
        io_slots: io,
        external_process_slots: processes,
    }
}

fn claim(unit: &str, minimum_cpu_slots: u32, external_process_slots: u32) -> WorkUnitClaim {
    WorkUnitClaim {
        work_unit: unit.to_string(),
        minimum_cpu_slots,
        external_process_slots,
    }
}

/// The work units these tests use: one CPU slot at minimum, and one
/// external process for the C compiler.
fn contract() -> PhysicalWorkContract {
    PhysicalWorkContract {
        units: vec![
            claim("a2_member_manifest", 1, 0),
            claim("a3_package_resolution", 1, 0),
            claim("a4_source_unit_graph", 1, 0),
            claim("a6_semantic_analysis", 1, 0),
            claim("n2_dependency_resolution", 1, 0),
            claim("n4_module_reachability", 1, 0),
            claim("n7_c_compilation", 1, 1),
        ],
    }
}

fn instance(id: &str, unit: &str, dependencies: &[&str], reservation: ResourceAmount) -> PhysicalWorkInstance {
    PhysicalWorkInstance {
        instance_id: id.to_string(),
        work_unit: unit.to_string(),
        dependencies: dependencies.iter().map(|id| (*id).to_string()).collect(),
        reservation,
        nested_parallelism: NestedParallelism::Disabled,
    }
}

fn scheduler(instances: Vec<PhysicalWorkInstance>, budget: ResourceAmount) -> ResourceScheduler {
    ResourceScheduler::new(&contract(), instances, budget).unwrap()
}

#[test]
fn parallel_ready_instances_run_together_and_commit_independently() {
    let mut scheduler = scheduler(
        vec![
            instance("rust-front", "a2_member_manifest", &[], amount(1, 10, 0, 0)),
            instance("nim-front", "n2_dependency_resolution", &[], amount(1, 10, 0, 0)),
        ],
        amount(2, 20, 0, 0),
    );

    assert_eq!(
        scheduler.admit_ready().unwrap(),
        vec!["nim-front".to_string(), "rust-front".to_string()]
    );
    assert_eq!(scheduler.state("rust-front"), Some(LifecycleState::Running));
    assert_eq!(scheduler.state("nim-front"), Some(LifecycleState::Running));
    scheduler.finish_computation("rust-front").unwrap();
    scheduler.commit("rust-front").unwrap();
    assert_eq!(scheduler.state("nim-front"), Some(LifecycleState::Running));
}

#[test]
fn resource_block_records_exact_wait_and_does_not_cancel_sibling() {
    let mut scheduler = scheduler(
        vec![
            instance("a", "a2_member_manifest", &[], amount(1, 8, 1, 0)),
            instance("b", "n2_dependency_resolution", &[], amount(1, 8, 1, 0)),
        ],
        amount(1, 16, 1, 0),
    );

    assert_eq!(scheduler.admit_ready().unwrap(), vec!["a"]);
    assert_eq!(scheduler.state("b"), Some(LifecycleState::Blocked));
    assert_eq!(
        scheduler.wait_reason("b"),
        Some(&WaitReason::Resources {
            deficit: ResourceDeficit {
                cpu_slots: 1,
                memory_bytes: 0,
                io_slots: 1,
                external_process_slots: 0,
            }
        })
    );
    scheduler.finish_computation("a").unwrap();
    scheduler.commit("a").unwrap();
    assert_eq!(scheduler.admit_ready().unwrap(), vec!["b"]);
}

#[test]
fn failed_producer_cancels_consumers_but_not_independent_running_work() {
    let mut scheduler = scheduler(
        vec![
            instance("producer", "a2_member_manifest", &[], amount(1, 1, 0, 0)),
            instance("consumer", "a3_package_resolution", &["producer"], amount(1, 1, 0, 0)),
            instance("sibling", "n2_dependency_resolution", &[], amount(1, 1, 0, 0)),
        ],
        amount(2, 3, 0, 0),
    );

    assert_eq!(
        scheduler.admit_ready().unwrap(),
        vec!["producer".to_string(), "sibling".to_string()]
    );
    scheduler.fail("producer", "bad source").unwrap();
    assert_eq!(scheduler.state("consumer"), Some(LifecycleState::Cancelled));
    assert_eq!(scheduler.state("sibling"), Some(LifecycleState::Running));
    assert!(!scheduler
        .transitions()
        .iter()
        .any(|event| { event.instance_id == "consumer" && event.to == LifecycleState::Running }));
}

#[test]
fn consumer_cancellation_does_not_cancel_its_producer_or_sibling() {
    let mut scheduler = scheduler(
        vec![
            instance("producer", "a2_member_manifest", &[], amount(1, 1, 0, 0)),
            instance("consumer", "a3_package_resolution", &["producer"], amount(1, 1, 0, 0)),
            instance("downstream", "a4_source_unit_graph", &["consumer"], amount(1, 1, 0, 0)),
            instance("sibling", "n2_dependency_resolution", &[], amount(1, 1, 0, 0)),
        ],
        amount(2, 4, 0, 0),
    );
    scheduler.admit_ready().unwrap();
    scheduler.cancel("consumer", "demand removed").unwrap();
    assert_eq!(scheduler.state("consumer"), Some(LifecycleState::Cancelled));
    assert_eq!(scheduler.state("downstream"), Some(LifecycleState::Cancelled));
    assert_eq!(scheduler.state("producer"), Some(LifecycleState::Running));
    assert_eq!(scheduler.state("sibling"), Some(LifecycleState::Running));
}

#[test]
fn memory_remains_reserved_through_committing_and_backpressures_next_ir() {
    let mut scheduler = scheduler(
        vec![
            instance("ir-a", "a6_semantic_analysis", &[], amount(1, 8, 0, 0)),
            instance("ir-b", "n4_module_reachability", &[], amount(1, 8, 0, 0)),
        ],
        amount(2, 10, 0, 0),
    );

    assert_eq!(scheduler.admit_ready().unwrap(), vec!["ir-a"]);
    scheduler.finish_computation("ir-a").unwrap();
    assert_eq!(scheduler.allocated().memory_bytes, 8);
    assert!(scheduler.admit_ready().unwrap().is_empty());
    assert_eq!(
        scheduler.wait_reason("ir-b"),
        Some(&WaitReason::Resources {
            deficit: ResourceDeficit {
                memory_bytes: 6,
                ..ResourceDeficit::default()
            }
        })
    );
    scheduler.commit("ir-a").unwrap();
    assert_eq!(scheduler.admit_ready().unwrap(), vec!["ir-b"]);
}

#[test]
fn external_compiler_must_reserve_its_process_and_total_nested_cpu() {
    let contract = contract();
    let mut external = instance("cc", "n7_c_compilation", &[], amount(3, 1, 1, 1));
    external.nested_parallelism = NestedParallelism::Accounted {
        additional_cpu_slots: 2,
    };
    assert!(matches!(
        ResourceScheduler::new(&contract, vec![external.clone()], amount(2, 1, 1, 1)),
        Err(SchedulerContractError::ReservationExceedsBudget { .. })
    ));
    assert!(ResourceScheduler::new(&contract, vec![external], amount(3, 1, 1, 1)).is_ok());

    let mut missing_process = instance("cc", "n7_c_compilation", &[], amount(3, 1, 1, 0));
    missing_process.nested_parallelism = NestedParallelism::Accounted {
        additional_cpu_slots: 2,
    };
    assert!(matches!(
        ResourceScheduler::new(&contract, vec![missing_process], amount(3, 1, 1, 1)),
        Err(SchedulerContractError::ReservationBelowWorkUnitMinimum { .. })
    ));

    let mut hidden_nested_cpu = instance("cc", "n7_c_compilation", &[], amount(1, 1, 1, 1));
    hidden_nested_cpu.nested_parallelism = NestedParallelism::Accounted {
        additional_cpu_slots: 2,
    };
    assert!(matches!(
        ResourceScheduler::new(&contract, vec![hidden_nested_cpu], amount(3, 1, 1, 1)),
        Err(SchedulerContractError::NestedParallelismExceedsCpuReservation { .. })
    ));

    let no_memory = instance("analysis", "a6_semantic_analysis", &[], amount(1, 0, 0, 0));
    assert!(matches!(
        ResourceScheduler::new(&contract, vec![no_memory], amount(3, 1, 1, 1)),
        Err(SchedulerContractError::ZeroMemoryReservation { .. })
    ));

    let no_io = instance("cc", "n7_c_compilation", &[], amount(1, 1, 0, 1));
    assert!(matches!(
        ResourceScheduler::new(&contract, vec![no_io], amount(3, 1, 1, 1)),
        Err(SchedulerContractError::ExternalProcessWithoutIoReservation { .. })
    ));
}

// ---------------------------------------------------------------------
// Construction errors, cycles and the walk
// ---------------------------------------------------------------------

#[test]
fn duplicate_instance_is_refused_before_its_own_checks() {
    let r = ResourceScheduler::new(
        &contract(),
        vec![
            instance("x", "a2_member_manifest", &[], amount(1, 1, 0, 0)),
            instance("x", "unknown_unit", &[], amount(0, 0, 0, 0)),
        ],
        amount(1, 1, 0, 0),
    );
    assert!(matches!(r, Err(SchedulerContractError::DuplicateInstance { instance_id }) if instance_id == "x"));
}

#[test]
fn unknown_work_unit_is_named() {
    let r = ResourceScheduler::new(
        &contract(),
        vec![instance("x", "no_such_unit", &[], amount(1, 1, 0, 0))],
        amount(1, 1, 0, 0),
    );
    assert_eq!(
        r.err(),
        Some(SchedulerContractError::UnknownWorkUnit {
            instance_id: "x".to_string(),
            work_unit: "no_such_unit".to_string()
        })
    );
}

#[test]
fn zero_cpu_reservation_is_refused() {
    let r = ResourceScheduler::new(
        &contract(),
        vec![instance("x", "a2_member_manifest", &[], amount(0, 1, 0, 0))],
        amount(1, 1, 0, 0),
    );
    assert_eq!(
        r.err(),
        Some(SchedulerContractError::ZeroCpuReservation { instance_id: "x".to_string() })
    );
}

#[test]
fn unknown_dependency_names_the_smallest_instance_and_the_smallest_missing_name() {
    let r = ResourceScheduler::new(
        &contract(),
        vec![
            instance("b", "a2_member_manifest", &["zz", "yy"], amount(1, 1, 0, 0)),
            instance("a", "a2_member_manifest", &["m", "k", "b"], amount(1, 1, 0, 0)),
        ],
        amount(1, 1, 0, 0),
    );
    assert_eq!(
        r.err(),
        Some(SchedulerContractError::UnknownDependency {
            instance_id: "a".to_string(),
            dependency: "k".to_string()
        })
    );
}

#[test]
fn a_dependency_cycle_is_refused() {
    let r = ResourceScheduler::new(
        &contract(),
        vec![
            instance("a", "a2_member_manifest", &["c"], amount(1, 1, 0, 0)),
            instance("b", "a2_member_manifest", &["a"], amount(1, 1, 0, 0)),
            instance("c", "a2_member_manifest", &["b"], amount(1, 1, 0, 0)),
        ],
        amount(1, 1, 0, 0),
    );
    assert_eq!(r.err(), Some(SchedulerContractError::DependencyCycle));
    let r = ResourceScheduler::new(
        &contract(),
        vec![instance("self", "a2_member_manifest", &["self"], amount(1, 1, 0, 0))],
        amount(1, 1, 0, 0),
    );
    assert_eq!(r.err(), Some(SchedulerContractError::DependencyCycle));
}

#[test]
fn construction_records_first_states_in_id_order() {
    let scheduler = scheduler(
        vec![
            instance("z", "a2_member_manifest", &[], amount(1, 1, 0, 0)),
            instance("m", "a3_package_resolution", &["z", "a"], amount(1, 1, 0, 0)),
            instance("a", "a2_member_manifest", &[], amount(1, 1, 0, 0)),
        ],
        amount(1, 1, 0, 0),
    );
    let ids: Vec<&str> = scheduler.transitions().iter().map(|t| t.instance_id.as_str()).collect();
    assert_eq!(ids, vec!["a", "m", "z"]);
    let sequences: Vec<u64> = scheduler.transitions().iter().map(|t| t.sequence).collect();
    assert_eq!(sequences, vec![0, 1, 2]);
    assert!(scheduler.transitions().iter().all(|t| t.from.is_none()));
    assert_eq!(scheduler.state("m"), Some(LifecycleState::Blocked));
    assert_eq!(
        scheduler.wait_reason("m"),
        Some(&WaitReason::Dependencies {
            pending: vec!["a".to_string(), "z".to_string()]
        })
    );
    assert_eq!(scheduler.state("a"), Some(LifecycleState::Ready));
    assert_eq!(scheduler.state("nobody"), None);
}

#[test]
fn committing_a_producer_narrows_then_releases_its_consumer() {
    let mut scheduler = scheduler(
        vec![
            instance("p", "a2_member_manifest", &[], amount(1, 1, 0, 0)),
            instance("q", "a2_member_manifest", &[], amount(1, 1, 0, 0)),
            instance("c", "a3_package_resolution", &["p", "q"], amount(1, 1, 0, 0)),
        ],
        amount(2, 2, 0, 0),
    );
    assert_eq!(scheduler.admit_ready().unwrap(), vec!["p", "q"]);
    scheduler.finish_computation("p").unwrap();
    scheduler.commit("p").unwrap();
    assert_eq!(
        scheduler.wait_reason("c"),
        Some(&WaitReason::Dependencies { pending: vec!["q".to_string()] })
    );
    scheduler.finish_computation("q").unwrap();
    scheduler.commit("q").unwrap();
    assert_eq!(scheduler.state("c"), Some(LifecycleState::Ready));
    assert_eq!(scheduler.admit_ready().unwrap(), vec!["c"]);
    assert_eq!(scheduler.allocated(), amount(1, 1, 0, 0));
}

#[test]
fn operations_in_the_wrong_state_are_refused() {
    let mut scheduler = scheduler(
        vec![instance("p", "a2_member_manifest", &[], amount(1, 1, 0, 0))],
        amount(1, 1, 0, 0),
    );
    assert!(matches!(
        scheduler.commit("p"),
        Err(SchedulerContractError::InvalidTransition { from: LifecycleState::Ready, .. })
    ));
    assert!(matches!(
        scheduler.fail("p", "x"),
        Err(SchedulerContractError::InvalidTransition { from: LifecycleState::Ready, .. })
    ));
    assert_eq!(
        scheduler.finish_computation("nobody"),
        Err(SchedulerContractError::UnknownInstance { instance_id: "nobody".to_string() })
    );
    scheduler.cancel("p", "no longer needed").unwrap();
    assert!(matches!(
        scheduler.cancel("p", "again"),
        Err(SchedulerContractError::InvalidTransition { from: LifecycleState::Cancelled, .. })
    ));
}

#[test]
fn a_failure_cancels_transitive_consumers_and_releases_the_reservation() {
    let mut scheduler = scheduler(
        vec![
            instance("p", "a2_member_manifest", &[], amount(1, 5, 0, 0)),
            instance("c1", "a3_package_resolution", &["p"], amount(1, 1, 0, 0)),
            instance("c2", "a4_source_unit_graph", &["c1"], amount(1, 1, 0, 0)),
        ],
        amount(1, 5, 0, 0),
    );
    scheduler.admit_ready().unwrap();
    assert_eq!(scheduler.allocated(), amount(1, 5, 0, 0));
    scheduler.fail("p", "broken").unwrap();
    assert_eq!(scheduler.state("p"), Some(LifecycleState::Failed));
    assert_eq!(scheduler.state("c1"), Some(LifecycleState::Cancelled));
    assert_eq!(scheduler.state("c2"), Some(LifecycleState::Cancelled));
    assert_eq!(scheduler.allocated(), amount(0, 0, 0, 0));
}

#[test]
fn deficit_saturates_at_zero_per_resource() {
    assert_eq!(
        ResourceDeficit::between(amount(4, 10, 1, 0), amount(1, 20, 1, 3)),
        ResourceDeficit {
            cpu_slots: 3,
            memory_bytes: 0,
            io_slots: 0,
            external_process_slots: 0,
        }
    );
}
