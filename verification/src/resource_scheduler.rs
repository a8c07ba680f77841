//! Resource admission and lifecycle for concrete physical work instances.
//!
//! A physical work contract classifies what each kind of work unit needs
//! at minimum; a concrete instance supplies its own accounted reservation.
//! Admission is over one global budget, and the reservation stays owned
//! through `committing`: an IR or staged artifact cannot disappear from
//! accounting merely because computation ended before publication did.

use vstd::prelude::*;

use crate::dependency_graph::{
    consumer_lists, consumers_of, dependencies_acyclic, edges_in_range, graph_of, graph_view, has_unknown, is_acyclic,
    lemma_acyclic_same, lemma_no_unknown_dependency, lemma_unknown_dependency_found, resolve_producers,
    unknown_dependency_error,
};
use crate::text::{
    lemma_seq_lt_asymmetric, lemma_seq_lt_irreflexive, lemma_seq_lt_total, lemma_seq_lt_transitive, owned, seq_lt, str_lt, strictly_sorted,
};

verus! {

// ---------------------------------------------------------------------
// Resource amounts
// ---------------------------------------------------------------------

/// A reservation or budget over the four accounted resources.
#[derive(Debug, Clone, Copy, Default, PartialEq, Eq, Structural)]
pub struct ResourceAmount {
    /// Total CPU slots, including every thread a nested compiler may run.
    pub cpu_slots: u32,
    pub memory_bytes: u64,
    pub io_slots: u32,
    pub external_process_slots: u32,
}

impl ResourceAmount {
    /// Every field of `self` is at most the same field of `limit`.
    pub open spec fn spec_fits_within(self, limit: Self) -> bool {
        &&& self.cpu_slots <= limit.cpu_slots
        &&& self.memory_bytes <= limit.memory_bytes
        &&& self.io_slots <= limit.io_slots
        &&& self.external_process_slots <= limit.external_process_slots
    }

    /// No field of `self + rhs` overflows its type.
    pub open spec fn spec_add_fits(self, rhs: Self) -> bool {
        &&& self.cpu_slots + rhs.cpu_slots <= u32::MAX
        &&& self.memory_bytes + rhs.memory_bytes <= u64::MAX
        &&& self.io_slots + rhs.io_slots <= u32::MAX
        &&& self.external_process_slots + rhs.external_process_slots <= u32::MAX
    }

    pub open spec fn spec_plus(self, rhs: Self) -> Self {
        ResourceAmount {
            cpu_slots: (self.cpu_slots + rhs.cpu_slots) as u32,
            memory_bytes: (self.memory_bytes + rhs.memory_bytes) as u64,
            io_slots: (self.io_slots + rhs.io_slots) as u32,
            external_process_slots: (self.external_process_slots
                + rhs.external_process_slots) as u32,
        }
    }

    pub open spec fn spec_minus(self, rhs: Self) -> Self {
        ResourceAmount {
            cpu_slots: (self.cpu_slots - rhs.cpu_slots) as u32,
            memory_bytes: (self.memory_bytes - rhs.memory_bytes) as u64,
            io_slots: (self.io_slots - rhs.io_slots) as u32,
            external_process_slots: (self.external_process_slots
                - rhs.external_process_slots) as u32,
        }
    }

    /// Field-wise sum, `None` when any field would overflow.
    pub fn checked_add(self, rhs: Self) -> (r: Option<Self>)
        ensures
            r == (if self.spec_add_fits(rhs) {
                Some(self.spec_plus(rhs))
            } else {
                None::<ResourceAmount>
            }),
    {
        let cpu_slots = match self.cpu_slots.checked_add(rhs.cpu_slots) {
            Some(v) => v,
            None => return None,
        };
        let memory_bytes = match self.memory_bytes.checked_add(rhs.memory_bytes) {
            Some(v) => v,
            None => return None,
        };
        let io_slots = match self.io_slots.checked_add(rhs.io_slots) {
            Some(v) => v,
            None => return None,
        };
        let external_process_slots = match self.external_process_slots.checked_add(
            rhs.external_process_slots,
        ) {
            Some(v) => v,
            None => return None,
        };
        Some(ResourceAmount { cpu_slots, memory_bytes, io_slots, external_process_slots })
    }

    /// Field-wise difference, `None` when any field would go below zero.
    pub fn checked_sub(self, rhs: Self) -> (r: Option<Self>)
        ensures
            r == (if rhs.spec_fits_within(self) {
                Some(self.spec_minus(rhs))
            } else {
                None::<ResourceAmount>
            }),
    {
        let cpu_slots = match self.cpu_slots.checked_sub(rhs.cpu_slots) {
            Some(v) => v,
            None => return None,
        };
        let memory_bytes = match self.memory_bytes.checked_sub(rhs.memory_bytes) {
            Some(v) => v,
            None => return None,
        };
        let io_slots = match self.io_slots.checked_sub(rhs.io_slots) {
            Some(v) => v,
            None => return None,
        };
        let external_process_slots = match self.external_process_slots.checked_sub(
            rhs.external_process_slots,
        ) {
            Some(v) => v,
            None => return None,
        };
        Some(ResourceAmount { cpu_slots, memory_bytes, io_slots, external_process_slots })
    }

    /// Whether every field of `self` is at most the same field of `limit`.
    pub fn fits_within(self, limit: Self) -> (r: bool)
        ensures
            r == self.spec_fits_within(limit),
    {
        self.cpu_slots <= limit.cpu_slots && self.memory_bytes <= limit.memory_bytes
            && self.io_slots <= limit.io_slots && self.external_process_slots
            <= limit.external_process_slots
    }
}

/// How much more of each resource a request needs than is available.
#[derive(Debug, Clone, Copy, Default, PartialEq, Eq, Structural)]
pub struct ResourceDeficit {
    pub cpu_slots: u32,
    pub memory_bytes: u64,
    pub io_slots: u32,
    pub external_process_slots: u32,
}

pub open spec fn sat_sub(a: int, b: int) -> int {
    if a >= b {
        a - b
    } else {
        0
    }
}

pub open spec fn spec_deficit(request: ResourceAmount, available: ResourceAmount) -> ResourceDeficit {
    ResourceDeficit {
        cpu_slots: sat_sub(request.cpu_slots as int, available.cpu_slots as int) as u32,
        memory_bytes: sat_sub(request.memory_bytes as int, available.memory_bytes as int) as u64,
        io_slots: sat_sub(request.io_slots as int, available.io_slots as int) as u32,
        external_process_slots: sat_sub(
            request.external_process_slots as int,
            available.external_process_slots as int,
        ) as u32,
    }
}

impl ResourceDeficit {
    /// The field-wise shortfall of `available` against `request`
    /// (zero wherever `available` suffices).
    pub fn between(request: ResourceAmount, available: ResourceAmount) -> (r: Self)
        ensures
            r == spec_deficit(request, available),
    {
        ResourceDeficit {
            cpu_slots: request.cpu_slots.saturating_sub(available.cpu_slots),
            memory_bytes: request.memory_bytes.saturating_sub(available.memory_bytes),
            io_slots: request.io_slots.saturating_sub(available.io_slots),
            external_process_slots: request.external_process_slots.saturating_sub(
                available.external_process_slots,
            ),
        }
    }
}

// ---------------------------------------------------------------------
// Work instances and lifecycle
// ---------------------------------------------------------------------

/// Whether a work instance launches further threads of its own.
#[derive(Debug, Clone, Copy, PartialEq, Eq, Structural)]
pub enum NestedParallelism {
    /// The work and any process it launches run on one execution thread.
    /// The instance's total CPU reservation still includes that one.
    Disabled,
    /// Additional threads beyond the primary execution thread. These slots
    /// must be included in `reservation.cpu_slots`.
    Accounted { additional_cpu_slots: u32 },
}

#[derive(Debug, Clone, Copy, PartialEq, Eq, Structural)]
pub enum LifecycleState {
    Ready,
    Running,
    Blocked,
    Committing,
    Completed,
    Failed,
    Cancelled,
}

impl LifecycleState {
    pub open spec fn spec_is_terminal(self) -> bool {
        self is Completed || self is Failed || self is Cancelled
    }

    pub open spec fn spec_owns_resources(self) -> bool {
        self is Running || self is Committing
    }

    /// Completed, failed and cancelled work never changes state again.
    pub fn is_terminal(self) -> (r: bool)
        ensures
            r == self.spec_is_terminal(),
    {
        match self {
            LifecycleState::Completed | LifecycleState::Failed | LifecycleState::Cancelled => true,
            _ => false,
        }
    }

    /// Running and committing work holds its reservation.
    pub fn owns_resources(self) -> (r: bool)
        ensures
            r == self.spec_owns_resources(),
    {
        match self {
            LifecycleState::Running | LifecycleState::Committing => true,
            _ => false,
        }
    }
}

/// Why a blocked instance is waiting.
#[derive(Debug, Clone, PartialEq, Eq)]
pub enum WaitReason {
    /// Producers that have not completed yet, in instance-id order.
    Dependencies { pending: Vec<String> },
    Resources { deficit: ResourceDeficit },
}

pub enum WaitReasonView {
    Dependencies { pending: Seq<Seq<char>> },
    Resources { deficit: ResourceDeficit },
}

pub open spec fn strings_view(v: Seq<String>) -> Seq<Seq<char>> {
    v.map_values(|s: String| s@)
}

impl View for WaitReason {
    type V = WaitReasonView;

    open spec fn view(&self) -> WaitReasonView {
        match self {
            WaitReason::Dependencies { pending } => WaitReasonView::Dependencies {
                pending: strings_view(pending@),
            },
            WaitReason::Resources { deficit } => WaitReasonView::Resources { deficit: *deficit },
        }
    }
}

#[derive(Debug, Clone, PartialEq, Eq)]
pub enum TransitionReason {
    DependenciesSatisfied,
    ResourcesAvailable,
    Admitted,
    ComputationFinished,
    CommitSucceeded,
    ExecutionFailed { detail: String },
    ExplicitCancellation { detail: String },
    ProducerFailed { producer: String },
    UpstreamCancelled { upstream: String },
    Waiting(WaitReason),
}

pub enum TransitionReasonView {
    DependenciesSatisfied,
    ResourcesAvailable,
    Admitted,
    ComputationFinished,
    CommitSucceeded,
    ExecutionFailed { detail: Seq<char> },
    ExplicitCancellation { detail: Seq<char> },
    ProducerFailed { producer: Seq<char> },
    UpstreamCancelled { upstream: Seq<char> },
    Waiting(WaitReasonView),
}

impl View for TransitionReason {
    type V = TransitionReasonView;

    open spec fn view(&self) -> TransitionReasonView {
        match self {
            TransitionReason::DependenciesSatisfied => TransitionReasonView::DependenciesSatisfied,
            TransitionReason::ResourcesAvailable => TransitionReasonView::ResourcesAvailable,
            TransitionReason::Admitted => TransitionReasonView::Admitted,
            TransitionReason::ComputationFinished => TransitionReasonView::ComputationFinished,
            TransitionReason::CommitSucceeded => TransitionReasonView::CommitSucceeded,
            TransitionReason::ExecutionFailed { detail } => TransitionReasonView::ExecutionFailed {
                detail: detail@,
            },
            TransitionReason::ExplicitCancellation { detail } =>
                TransitionReasonView::ExplicitCancellation { detail: detail@ },
            TransitionReason::ProducerFailed { producer } => TransitionReasonView::ProducerFailed {
                producer: producer@,
            },
            TransitionReason::UpstreamCancelled { upstream } =>
                TransitionReasonView::UpstreamCancelled { upstream: upstream@ },
            TransitionReason::Waiting(w) => TransitionReasonView::Waiting(w@),
        }
    }
}

/// One recorded state change. `from` is `None` exactly on the first
/// transition an instance ever records.
#[derive(Debug, Clone, PartialEq, Eq)]
pub struct LifecycleTransition {
    pub sequence: u64,
    pub instance_id: String,
    pub from: Option<LifecycleState>,
    pub to: LifecycleState,
    pub reason: TransitionReason,
}

pub struct TransitionView {
    pub sequence: u64,
    pub instance_id: Seq<char>,
    pub from: Option<LifecycleState>,
    pub to: LifecycleState,
    pub reason: TransitionReasonView,
}

impl View for LifecycleTransition {
    type V = TransitionView;

    open spec fn view(&self) -> TransitionView {
        TransitionView {
            sequence: self.sequence,
            instance_id: self.instance_id@,
            from: self.from,
            to: self.to,
            reason: self.reason@,
        }
    }
}

/// The `String` copies of `v`, in order.
pub fn clone_strings(v: &Vec<String>) -> (r: Vec<String>)
    ensures
        r@ == v@,
{
    let mut out: Vec<String> = Vec::new();
    let mut i: usize = 0;
    while i < v.len()
        invariant
            i <= v@.len(),
            out@ == v@.take(i as int),
        decreases v@.len() - i,
    {
        out.push(v[i].clone());
        proof {
            assert(v@.take(i + 1) =~= v@.take(i as int).push(v@[i as int]));
        }
        i = i + 1;
    }
    proof {
        assert(v@.take(v@.len() as int) =~= v@);
    }
    out
}

impl WaitReason {
    /// An equal copy.
    pub fn duplicate(&self) -> (r: WaitReason)
        ensures
            r@ == self@,
    {
        match self {
            WaitReason::Dependencies { pending } => WaitReason::Dependencies {
                pending: clone_strings(pending),
            },
            WaitReason::Resources { deficit } => WaitReason::Resources { deficit: *deficit },
        }
    }
}


// ---------------------------------------------------------------------
// Contract and instances
// ---------------------------------------------------------------------

/// What one kind of work unit requires of any concrete instance of it.
#[derive(Debug, Clone, PartialEq, Eq)]
pub struct WorkUnitClaim {
    pub work_unit: String,
    pub minimum_cpu_slots: u32,
    pub external_process_slots: u32,
}

/// The classified work units; a later claim for the same unit replaces an
/// earlier one.
#[derive(Debug, Clone, PartialEq, Eq)]
pub struct PhysicalWorkContract {
    pub units: Vec<WorkUnitClaim>,
}

/// One concrete instance to schedule. Multiple identities may use the same
/// work-unit kind without sharing cache or execution identity.
#[derive(Debug, Clone, PartialEq, Eq)]
pub struct PhysicalWorkInstance {
    pub instance_id: String,
    pub work_unit: String,
    /// The instances this one consumes (a set: order and repetition do not
    /// matter).
    pub dependencies: Vec<String>,
    pub reservation: ResourceAmount,
    pub nested_parallelism: NestedParallelism,
}

pub struct InstanceView {
    pub instance_id: Seq<char>,
    pub work_unit: Seq<char>,
    pub dependencies: Seq<Seq<char>>,
    pub reservation: ResourceAmount,
    pub nested_parallelism: NestedParallelism,
}

impl View for PhysicalWorkInstance {
    type V = InstanceView;

    open spec fn view(&self) -> InstanceView {
        InstanceView {
            instance_id: self.instance_id@,
            work_unit: self.work_unit@,
            dependencies: strings_view(self.dependencies@),
            reservation: self.reservation,
            nested_parallelism: self.nested_parallelism,
        }
    }
}

pub open spec fn insts_view(v: Seq<PhysicalWorkInstance>) -> Seq<InstanceView> {
    v.map_values(|x: PhysicalWorkInstance| x@)
}

impl PhysicalWorkInstance {
    /// An equal copy.
    pub fn duplicate(&self) -> (r: PhysicalWorkInstance)
        ensures
            r@ == self@,
    {
        PhysicalWorkInstance {
            instance_id: self.instance_id.clone(),
            work_unit: self.work_unit.clone(),
            dependencies: clone_strings(&self.dependencies),
            reservation: self.reservation,
            nested_parallelism: self.nested_parallelism,
        }
    }
}

#[derive(Debug, Clone, PartialEq, Eq)]
pub enum SchedulerContractError {
    DuplicateInstance { instance_id: String },
    UnknownWorkUnit { instance_id: String, work_unit: String },
    UnknownDependency { instance_id: String, dependency: String },
    DependencyCycle,
    ZeroCpuReservation { instance_id: String },
    ZeroMemoryReservation { instance_id: String },
    NestedParallelismExceedsCpuReservation { instance_id: String },
    ExternalProcessWithoutIoReservation { instance_id: String },
    ReservationBelowWorkUnitMinimum { instance_id: String },
    ReservationExceedsBudget { instance_id: String },
    ResourceAccountingOverflow,
    UnknownInstance { instance_id: String },
    InvalidTransition { instance_id: String, from: LifecycleState, operation: String },
}

pub enum SchedulerErrorView {
    DuplicateInstance { instance_id: Seq<char> },
    UnknownWorkUnit { instance_id: Seq<char>, work_unit: Seq<char> },
    UnknownDependency { instance_id: Seq<char>, dependency: Seq<char> },
    DependencyCycle,
    ZeroCpuReservation { instance_id: Seq<char> },
    ZeroMemoryReservation { instance_id: Seq<char> },
    NestedParallelismExceedsCpuReservation { instance_id: Seq<char> },
    ExternalProcessWithoutIoReservation { instance_id: Seq<char> },
    ReservationBelowWorkUnitMinimum { instance_id: Seq<char> },
    ReservationExceedsBudget { instance_id: Seq<char> },
    ResourceAccountingOverflow,
    UnknownInstance { instance_id: Seq<char> },
    InvalidTransition { instance_id: Seq<char>, from: LifecycleState, operation: Seq<char> },
}

impl View for SchedulerContractError {
    type V = SchedulerErrorView;

    open spec fn view(&self) -> SchedulerErrorView {
        match self {
            SchedulerContractError::DuplicateInstance { instance_id } =>
                SchedulerErrorView::DuplicateInstance { instance_id: instance_id@ },
            SchedulerContractError::UnknownWorkUnit { instance_id, work_unit } =>
                SchedulerErrorView::UnknownWorkUnit {
                    instance_id: instance_id@,
                    work_unit: work_unit@,
                },
            SchedulerContractError::UnknownDependency { instance_id, dependency } =>
                SchedulerErrorView::UnknownDependency {
                    instance_id: instance_id@,
                    dependency: dependency@,
                },
            SchedulerContractError::DependencyCycle => SchedulerErrorView::DependencyCycle,
            SchedulerContractError::ZeroCpuReservation { instance_id } =>
                SchedulerErrorView::ZeroCpuReservation { instance_id: instance_id@ },
            SchedulerContractError::ZeroMemoryReservation { instance_id } =>
                SchedulerErrorView::ZeroMemoryReservation { instance_id: instance_id@ },
            SchedulerContractError::NestedParallelismExceedsCpuReservation { instance_id } =>
                SchedulerErrorView::NestedParallelismExceedsCpuReservation {
                    instance_id: instance_id@,
                },
            SchedulerContractError::ExternalProcessWithoutIoReservation { instance_id } =>
                SchedulerErrorView::ExternalProcessWithoutIoReservation {
                    instance_id: instance_id@,
                },
            SchedulerContractError::ReservationBelowWorkUnitMinimum { instance_id } =>
                SchedulerErrorView::ReservationBelowWorkUnitMinimum { instance_id: instance_id@ },
            SchedulerContractError::ReservationExceedsBudget { instance_id } =>
                SchedulerErrorView::ReservationExceedsBudget { instance_id: instance_id@ },
            SchedulerContractError::ResourceAccountingOverflow =>
                SchedulerErrorView::ResourceAccountingOverflow,
            SchedulerContractError::UnknownInstance { instance_id } =>
                SchedulerErrorView::UnknownInstance { instance_id: instance_id@ },
            SchedulerContractError::InvalidTransition { instance_id, from, operation } =>
                SchedulerErrorView::InvalidTransition {
                    instance_id: instance_id@,
                    from: *from,
                    operation: operation@,
                },
        }
    }
}

// ---------------------------------------------------------------------
// The scheduler and its model
// ---------------------------------------------------------------------

/// The model of one scheduled instance: its identity, reservation, the
/// indices of its producers and consumers, and its lifecycle.
pub struct WorkView {
    pub id: Seq<char>,
    pub reservation: ResourceAmount,
    pub deps: Seq<int>,
    pub dependents: Seq<int>,
    pub state: LifecycleState,
    pub wait: Option<WaitReasonView>,
}

/// The model of a scheduler: instances in ascending id order.
pub struct SchedulerView {
    pub budget: ResourceAmount,
    pub allocated: ResourceAmount,
    pub works: Seq<WorkView>,
    pub transitions: Seq<TransitionView>,
}

/// Deterministic admission controller for concrete instances of a physical
/// work contract. It owns scheduling state, not computation: callers run
/// the ids returned by [`Self::admit_ready`], then acknowledge computation
/// and commit separately.
pub struct ResourceScheduler {
    budget: ResourceAmount,
    allocated: ResourceAmount,
    /// Instance definitions, in ascending instance-id order.
    defs: Vec<PhysicalWorkInstance>,
    /// Per instance: the indices of its producers, ascending.
    deps: Vec<Vec<usize>>,
    /// Per instance: the indices of its consumers, ascending.
    dependents: Vec<Vec<usize>>,
    states: Vec<LifecycleState>,
    waits: Vec<Option<WaitReason>>,
    transitions: Vec<LifecycleTransition>,
}

pub open spec fn opt_wait_view(w: Option<WaitReason>) -> Option<WaitReasonView> {
    match w {
        Some(r) => Some(r@),
        None => None,
    }
}

pub open spec fn indices_view(v: Seq<usize>) -> Seq<int> {
    v.map_values(|d: usize| d as int)
}

/// A ghost sum of reservations over the four resources.
pub struct AmountSum {
    pub cpu: int,
    pub mem: int,
    pub io: int,
    pub ext: int,
}

pub open spec fn amount_sum_of(a: ResourceAmount) -> AmountSum {
    AmountSum {
        cpu: a.cpu_slots as int,
        mem: a.memory_bytes as int,
        io: a.io_slots as int,
        ext: a.external_process_slots as int,
    }
}

/// The sum of the reservations of every instance that currently owns its
/// resources (running or committing).
pub open spec fn owned_sum(ws: Seq<WorkView>) -> AmountSum
    decreases ws.len(),
{
    if ws.len() == 0 {
        AmountSum { cpu: 0, mem: 0, io: 0, ext: 0 }
    } else {
        let r = owned_sum(ws.drop_last());
        let w = ws.last();
        if w.state.spec_owns_resources() {
            AmountSum {
                cpu: r.cpu + w.reservation.cpu_slots,
                mem: r.mem + w.reservation.memory_bytes,
                io: r.io + w.reservation.io_slots,
                ext: r.ext + w.reservation.external_process_slots,
            }
        } else {
            r
        }
    }
}

pub open spec fn strictly_increasing(s: Seq<int>) -> bool {
    forall|a: int, b: int| 0 <= a < b < s.len() ==> s[a] < s[b]
}

/// Whether an instance in this state must have every producer completed.
pub open spec fn needs_completed_deps(state: LifecycleState, wait: Option<WaitReasonView>) -> bool {
    ||| state is Ready
    ||| state is Completed
    ||| state is Running
    ||| state is Committing
    ||| (state is Blocked && wait matches Some(WaitReasonView::Resources { .. }))
}

/// Identity and graph structure: ids strictly ascending, producer and
/// consumer index lists ascending, in range, and mirror images.
pub open spec fn struct_wf(v: SchedulerView) -> bool {
    let n = v.works.len();
    &&& forall|i: int, j: int| 0 <= i < j < n ==> seq_lt(v.works[i].id, v.works[j].id)
    &&& forall|i: int| #![trigger v.works[i]] 0 <= i < n ==> {
        &&& strictly_increasing(v.works[i].deps)
        &&& strictly_increasing(v.works[i].dependents)
        &&& forall|k: int| 0 <= k < v.works[i].deps.len() ==> 0 <= #[trigger] v.works[i].deps[k] < n
        &&& forall|k: int| 0 <= k < v.works[i].dependents.len() ==> 0 <= #[trigger] v.works[i].dependents[k] < n
    }
    &&& forall|i: int, j: int| 0 <= i < n && 0 <= j < n ==>
        (v.works[i].dependents.contains(j) <==> v.works[j].deps.contains(i))
}

/// The allocation is exactly what running and committing work owns, and
/// within the budget.
pub open spec fn alloc_wf(v: SchedulerView) -> bool {
    &&& v.allocated.spec_fits_within(v.budget)
    &&& owned_sum(v.works) == amount_sum_of(v.allocated)
}

/// A consumer never runs (or waits only for resources) before every one of
/// its producers has completed.
pub open spec fn deps_wf(v: SchedulerView) -> bool {
    forall|i: int, k: int| 0 <= i < v.works.len() && 0 <= k < v.works[i].deps.len()
        && needs_completed_deps(v.works[i].state, v.works[i].wait)
        ==> (#[trigger] v.works[v.works[i].deps[k]]).state is Completed
}

/// Transitions are numbered in the order they were recorded.
pub open spec fn seq_wf(v: SchedulerView) -> bool {
    forall|k: int| 0 <= k < v.transitions.len() ==> (#[trigger] v.transitions[k]).sequence == k
}

/// Failed or cancelled.
pub open spec fn stopped(s: LifecycleState) -> bool {
    s is Failed || s is Cancelled
}

/// Every consumer of failed or cancelled work has ended as well, or is
/// still on `stack`, waiting to be cancelled.
pub open spec fn walk_wf(v: SchedulerView, stack: Seq<int>) -> bool {
    forall|x: int, k: int| 0 <= x < v.works.len() && stopped(v.works[x].state) && 0 <= k < v.works[x].dependents.len()
        ==> (#[trigger] v.works[v.works[x].dependents[k]]).state.spec_is_terminal() || stack.contains(
        v.works[x].dependents[k],
    )
}

/// Every consumer of failed or cancelled work has ended as well.
pub open spec fn cancel_wf(v: SchedulerView) -> bool {
    walk_wf(v, Seq::empty())
}

/// Only blocked work records why it waits.
pub open spec fn waits_wf(v: SchedulerView) -> bool {
    forall|i: int| 0 <= i < v.works.len() && (#[trigger] v.works[i]).wait is Some ==> v.works[i].state is Blocked
}

/// The invariant apart from the closure of cancellation.
pub open spec fn core_wf(v: SchedulerView) -> bool {
    &&& struct_wf(v)
    &&& alloc_wf(v)
    &&& deps_wf(v)
    &&& seq_wf(v)
    &&& waits_wf(v)
}

/// The state recorded last for `id` in `ts`, if any.
pub open spec fn last_logged(ts: Seq<TransitionView>, id: Seq<char>) -> Option<LifecycleState>
    decreases ts.len(),
{
    if ts.len() == 0 {
        None
    } else if ts.last().instance_id == id {
        Some(ts.last().to)
    } else {
        last_logged(ts.drop_last(), id)
    }
}

/// The transition log is a chain: each transition starts from the state
/// last recorded for its instance (from nothing, the first time), and each
/// instance is in the state last recorded for it.
pub open spec fn log_wf(v: SchedulerView) -> bool {
    &&& forall|k: int| 0 <= k < v.transitions.len() ==> (#[trigger] v.transitions[k]).from == last_logged(
        v.transitions.take(k),
        v.transitions[k].instance_id,
    )
    &&& forall|i: int| 0 <= i < v.works.len() ==> (last_logged(v.transitions, #[trigger] v.works[i].id) matches Some(
        st,
    ) ==> st == v.works[i].state)
}

/// The scheduler invariant.
pub open spec fn view_wf(v: SchedulerView) -> bool {
    &&& core_wf(v)
    &&& cancel_wf(v)
    &&& log_wf(v)
}

/// An instance has a recorded state exactly when some transition names it.
pub proof fn lemma_logged_iff_has_transition(ts: Seq<TransitionView>, id: Seq<char>)
    ensures
        last_logged(ts, id) is Some <==> has_transition_for(ts, id),
    decreases ts.len(),
{
    if ts.len() > 0 {
        lemma_logged_iff_has_transition(ts.drop_last(), id);
        if has_transition_for(ts.drop_last(), id) {
            let k = choose|k: int| 0 <= k < ts.drop_last().len() && (#[trigger] ts.drop_last()[k]).instance_id == id;
            assert(ts[k].instance_id == id);
        }
        if has_transition_for(ts, id) && ts.last().instance_id != id {
            let k = choose|k: int| 0 <= k < ts.len() && (#[trigger] ts[k]).instance_id == id;
            assert(ts.drop_last()[k].instance_id == id);
        }
    }
}

pub open spec fn has_transition_for(ts: Seq<TransitionView>, id: Seq<char>) -> bool {
    exists|k: int| 0 <= k < ts.len() && (#[trigger] ts[k]).instance_id == id
}

/// Records a state change of instance `i`.
pub open spec fn set_state_spec(
    v: SchedulerView,
    i: int,
    to: LifecycleState,
    wait: Option<WaitReasonView>,
    reason: TransitionReasonView,
) -> SchedulerView {
    let w = v.works[i];
    let from = if has_transition_for(v.transitions, w.id) {
        Some(w.state)
    } else {
        None
    };
    SchedulerView {
        works: v.works.update(i, WorkView { state: to, wait: wait, ..w }),
        transitions: v.transitions.push(
            TransitionView {
                sequence: v.transitions.len() as u64,
                instance_id: w.id,
                from: from,
                to: to,
                reason: reason,
            },
        ),
        ..v
    }
}

/// The index of the instance named `id`, if any.
pub open spec fn find_spec(v: SchedulerView, id: Seq<char>) -> Option<int> {
    if exists|i: int| 0 <= i < v.works.len() && (#[trigger] v.works[i]).id == id {
        Some(choose|i: int| 0 <= i < v.works.len() && (#[trigger] v.works[i]).id == id)
    } else {
        None
    }
}

// ---------------------------------------------------------------------
// The model of each operation
// ---------------------------------------------------------------------

pub open spec fn owned_part(w: WorkView) -> AmountSum {
    if w.state.spec_owns_resources() {
        amount_sum_of(w.reservation)
    } else {
        AmountSum { cpu: 0, mem: 0, io: 0, ext: 0 }
    }
}

pub open spec fn nonterminal_count(ws: Seq<WorkView>) -> nat
    decreases ws.len(),
{
    if ws.len() == 0 {
        0
    } else {
        nonterminal_count(ws.drop_last()) + if ws.last().state.spec_is_terminal() {
            0nat
        } else {
            1nat
        }
    }
}

pub proof fn lemma_owned_sum_update(ws: Seq<WorkView>, i: int, w: WorkView)
    requires
        0 <= i < ws.len(),
        w.reservation == ws[i].reservation,
    ensures
        owned_sum(ws.update(i, w)).cpu == owned_sum(ws).cpu - owned_part(ws[i]).cpu + owned_part(w).cpu,
        owned_sum(ws.update(i, w)).mem == owned_sum(ws).mem - owned_part(ws[i]).mem + owned_part(w).mem,
        owned_sum(ws.update(i, w)).io == owned_sum(ws).io - owned_part(ws[i]).io + owned_part(w).io,
        owned_sum(ws.update(i, w)).ext == owned_sum(ws).ext - owned_part(ws[i]).ext + owned_part(w).ext,
    decreases ws.len(),
{
    let u = ws.update(i, w);
    if i == ws.len() - 1 {
        assert(u.drop_last() =~= ws.drop_last());
    } else {
        assert(u.drop_last() =~= ws.drop_last().update(i, w));
        lemma_owned_sum_update(ws.drop_last(), i, w);
    }
}

pub proof fn lemma_owned_sum_nonneg(ws: Seq<WorkView>)
    ensures
        owned_sum(ws).cpu >= 0,
        owned_sum(ws).mem >= 0,
        owned_sum(ws).io >= 0,
        owned_sum(ws).ext >= 0,
    decreases ws.len(),
{
    if ws.len() > 0 {
        lemma_owned_sum_nonneg(ws.drop_last());
    }
}

pub proof fn lemma_nonterminal_count_update(ws: Seq<WorkView>, i: int, w: WorkView)
    requires
        0 <= i < ws.len(),
    ensures
        nonterminal_count(ws.update(i, w)) + (if ws[i].state.spec_is_terminal() { 0int } else { 1int })
            == nonterminal_count(ws) + (if w.state.spec_is_terminal() { 0int } else { 1int }),
    decreases ws.len(),
{
    let u = ws.update(i, w);
    if i == ws.len() - 1 {
        assert(u.drop_last() =~= ws.drop_last());
    } else {
        assert(u.drop_last() =~= ws.drop_last().update(i, w));
        lemma_nonterminal_count_update(ws.drop_last(), i, w);
    }
}

/// Returns the reservation of instance `i` to the budget.
pub open spec fn release_spec(v: SchedulerView, i: int) -> SchedulerView {
    SchedulerView { allocated: v.allocated.spec_minus(v.works[i].reservation), ..v }
}

pub open spec fn invalid_transition(id: Seq<char>, from: LifecycleState, op: Seq<char>) -> SchedulerErrorView {
    SchedulerErrorView::InvalidTransition { instance_id: id, from: from, operation: op }
}

/// The ids of the producers among `ds` that have not completed, in order.
pub open spec fn pending_ids(v: SchedulerView, ds: Seq<int>) -> Seq<Seq<char>>
    decreases ds.len(),
{
    if ds.len() == 0 {
        Seq::empty()
    } else {
        let rest = pending_ids(v, ds.drop_first());
        if v.works[ds[0]].state is Completed {
            rest
        } else {
            seq![v.works[ds[0]].id] + rest
        }
    }
}

/// After a producer completes: each consumer in `cons` that is blocked on
/// dependencies either becomes ready (nothing left pending) or has its
/// pending list narrowed.
pub open spec fn refresh_spec(v: SchedulerView, cons: Seq<int>) -> SchedulerView
    decreases cons.len(),
{
    if cons.len() == 0 {
        v
    } else {
        let c = cons[0];
        let w = v.works[c];
        let v1 = if w.state is Blocked && w.wait matches Some(WaitReasonView::Dependencies { .. }) {
            let pending = pending_ids(v, w.deps);
            if pending.len() == 0 {
                set_state_spec(v, c, LifecycleState::Ready, None, TransitionReasonView::DependenciesSatisfied)
            } else {
                SchedulerView {
                    works: v.works.update(
                        c,
                        WorkView { wait: Some(WaitReasonView::Dependencies { pending: pending }), ..w },
                    ),
                    ..v
                }
            }
        } else {
            v
        };
        refresh_spec(v1, cons.drop_first())
    }
}

/// Cancels, depth first from the end of `stack`, every consumer reached
/// through work that is not already terminal.
pub open spec fn cancel_walk(
    v: SchedulerView,
    root: Seq<char>,
    producer_failed: bool,
    stack: Seq<int>,
) -> SchedulerView
    decreases nonterminal_count(v.works), stack.len(),
{
    if stack.len() == 0 {
        v
    } else {
        let id = stack.last();
        let rest = stack.drop_last();
        if !(0 <= id < v.works.len()) || v.works[id].state.spec_is_terminal() {
            cancel_walk(v, root, producer_failed, rest)
        } else {
            let reason = if producer_failed {
                TransitionReasonView::ProducerFailed { producer: root }
            } else {
                TransitionReasonView::UpstreamCancelled { upstream: root }
            };
            let v1 = set_state_spec(v, id, LifecycleState::Cancelled, None, reason);
            proof {
                lemma_nonterminal_count_update(
                    v.works,
                    id,
                    WorkView { state: LifecycleState::Cancelled, wait: None, ..v.works[id] },
                );
            }
            cancel_walk(v1, root, producer_failed, rest + v.works[id].dependents)
        }
    }
}

pub open spec fn finish_spec(v: SchedulerView, id: Seq<char>) -> (SchedulerView, Result<(), SchedulerErrorView>) {
    match find_spec(v, id) {
        None => (v, Err(SchedulerErrorView::UnknownInstance { instance_id: id })),
        Some(i) => if v.works[i].state is Running {
            (
                set_state_spec(v, i, LifecycleState::Committing, None, TransitionReasonView::ComputationFinished),
                Ok(()),
            )
        } else {
            (v, Err(invalid_transition(id, v.works[i].state, "finish_computation"@)))
        },
    }
}

pub open spec fn commit_spec(v: SchedulerView, id: Seq<char>) -> (SchedulerView, Result<(), SchedulerErrorView>) {
    match find_spec(v, id) {
        None => (v, Err(SchedulerErrorView::UnknownInstance { instance_id: id })),
        Some(i) => if v.works[i].state is Committing {
            let v1 = set_state_spec(
                release_spec(v, i),
                i,
                LifecycleState::Completed,
                None,
                TransitionReasonView::CommitSucceeded,
            );
            (refresh_spec(v1, v.works[i].dependents), Ok(()))
        } else {
            (v, Err(invalid_transition(id, v.works[i].state, "commit"@)))
        },
    }
}

pub open spec fn fail_spec(v: SchedulerView, id: Seq<char>, detail: Seq<char>) -> (SchedulerView, Result<(), SchedulerErrorView>) {
    match find_spec(v, id) {
        None => (v, Err(SchedulerErrorView::UnknownInstance { instance_id: id })),
        Some(i) => if v.works[i].state.spec_owns_resources() {
            let v1 = set_state_spec(
                release_spec(v, i),
                i,
                LifecycleState::Failed,
                None,
                TransitionReasonView::ExecutionFailed { detail: detail },
            );
            (cancel_walk(v1, id, true, v.works[i].dependents), Ok(()))
        } else {
            (v, Err(invalid_transition(id, v.works[i].state, "fail"@)))
        },
    }
}

pub open spec fn cancel_spec(v: SchedulerView, id: Seq<char>, detail: Seq<char>) -> (SchedulerView, Result<(), SchedulerErrorView>) {
    match find_spec(v, id) {
        None => (v, Err(SchedulerErrorView::UnknownInstance { instance_id: id })),
        Some(i) => if v.works[i].state.spec_is_terminal() {
            (v, Err(invalid_transition(id, v.works[i].state, "cancel"@)))
        } else {
            let v0 = if v.works[i].state.spec_owns_resources() {
                release_spec(v, i)
            } else {
                v
            };
            let v1 = set_state_spec(
                v0,
                i,
                LifecycleState::Cancelled,
                None,
                TransitionReasonView::ExplicitCancellation { detail: detail },
            );
            (cancel_walk(v1, id, false, v.works[i].dependents), Ok(()))
        },
    }
}

pub open spec fn err_view(r: Result<(), SchedulerContractError>) -> Result<(), SchedulerErrorView> {
    match r {
        Ok(()) => Ok(()),
        Err(e) => Err(e@),
    }
}

pub proof fn lemma_pending_empty(v: SchedulerView, ds: Seq<int>)
    ensures
        pending_ids(v, ds).len() == 0 <==> forall|k: int| 0 <= k < ds.len() ==> (#[trigger] v.works[ds[k]]).state is Completed,
    decreases ds.len(),
{
    if ds.len() > 0 {
        lemma_pending_empty(v, ds.drop_first());
        if pending_ids(v, ds).len() == 0 {
            assert forall|k: int| 0 <= k < ds.len() implies (#[trigger] v.works[ds[k]]).state is Completed by {
                if k > 0 {
                    assert(ds[k] == ds.drop_first()[k - 1]);
                }
            }
        }
        if forall|k: int| 0 <= k < ds.len() ==> (#[trigger] v.works[ds[k]]).state is Completed {
            assert forall|k: int| 0 <= k < ds.drop_first().len() implies (#[trigger] v.works[ds.drop_first()[k]]).state is Completed by {
                assert(ds.drop_first()[k] == ds[k + 1]);
            }
        }
    }
}

/// Recording a state change keeps the structure, the transition numbering
/// and (for a change that never un-completes work and only enters a state
/// needing completed producers when they are) the producer discipline; the
/// owned sum moves by exactly the owned part of the instance.
pub proof fn lemma_set_state_wf(
    v: SchedulerView,
    i: int,
    to: LifecycleState,
    wait: Option<WaitReasonView>,
    reason: TransitionReasonView,
)
    requires
        struct_wf(v),
        deps_wf(v),
        seq_wf(v),
        0 <= i < v.works.len(),
        v.transitions.len() <= u64::MAX,
        !(v.works[i].state is Completed),
        needs_completed_deps(to, wait) ==> forall|k: int| 0 <= k < v.works[i].deps.len()
            ==> (#[trigger] v.works[v.works[i].deps[k]]).state is Completed,
    ensures
        ({
            let nv = set_state_spec(v, i, to, wait, reason);
            &&& struct_wf(nv)
            &&& deps_wf(nv)
            &&& seq_wf(nv)
            &&& nv.works.len() == v.works.len()
            &&& nv.allocated == v.allocated
            &&& nv.budget == v.budget
            &&& forall|j: int| 0 <= j < v.works.len() ==> (#[trigger] nv.works[j]).id == v.works[j].id
                && nv.works[j].deps == v.works[j].deps && nv.works[j].dependents == v.works[j].dependents
                && nv.works[j].reservation == v.works[j].reservation
            &&& forall|j: int| 0 <= j < v.works.len() && j != i ==> (#[trigger] nv.works[j]) == v.works[j]
            &&& nv.works[i].state == to
            &&& nv.works[i].wait == wait
            &&& owned_sum(nv.works).cpu == owned_sum(v.works).cpu - owned_part(v.works[i]).cpu
                + owned_part(nv.works[i]).cpu
            &&& owned_sum(nv.works).mem == owned_sum(v.works).mem - owned_part(v.works[i]).mem
                + owned_part(nv.works[i]).mem
            &&& owned_sum(nv.works).io == owned_sum(v.works).io - owned_part(v.works[i]).io
                + owned_part(nv.works[i]).io
            &&& owned_sum(nv.works).ext == owned_sum(v.works).ext - owned_part(v.works[i]).ext
                + owned_part(nv.works[i]).ext
            &&& nonterminal_count(nv.works) + (if v.works[i].state.spec_is_terminal() { 0int } else { 1int })
                == nonterminal_count(v.works) + (if to.spec_is_terminal() { 0int } else { 1int })
            &&& (cancel_wf(v) && !v.works[i].state.spec_is_terminal() && !stopped(to)) ==> cancel_wf(nv)
            &&& (waits_wf(v) && (wait is Some ==> to is Blocked)) ==> waits_wf(nv)
            &&& log_wf(v) ==> log_wf(nv)
        }),
{
    let nv = set_state_spec(v, i, to, wait, reason);
    if log_wf(v) {
        let ts = v.transitions;
        let nts = nv.transitions;
        let id = v.works[i].id;
        lemma_logged_iff_has_transition(ts, id);
        assert(nts.drop_last() =~= ts);
        assert forall|k: int| 0 <= k < nts.len() implies (#[trigger] nts[k]).from == last_logged(nts.take(k), nts[k].instance_id) by {
            if k < ts.len() {
                assert(nts.take(k) =~= ts.take(k));
                assert(nts[k] == ts[k]);
            } else {
                assert(nts.take(k) =~= ts);
            }
        }
        assert forall|j: int| 0 <= j < nv.works.len() implies (last_logged(nts, #[trigger] nv.works[j].id) matches Some(
            st,
        ) ==> st == nv.works[j].state) by {
            if j != i {
                assert(nv.works[j] == v.works[j]);
                if j < i {
                    assert(seq_lt(v.works[j].id, v.works[i].id));
                } else {
                    assert(seq_lt(v.works[i].id, v.works[j].id));
                }
                lemma_seq_lt_irreflexive(v.works[j].id);
                assert(v.works[j].id != id);
                assert(last_logged(nts, v.works[j].id) == last_logged(ts, v.works[j].id));
            }
        }
    }
    let w = WorkView { state: to, wait: wait, ..v.works[i] };
    lemma_owned_sum_update(v.works, i, w);
    lemma_nonterminal_count_update(v.works, i, w);
    assert forall|j: int| 0 <= j < v.works.len() implies (#[trigger] nv.works[j]).id == v.works[j].id
        && nv.works[j].deps == v.works[j].deps && nv.works[j].dependents == v.works[j].dependents
        && nv.works[j].reservation == v.works[j].reservation by {}
    assert(struct_wf(nv)) by {
        assert forall|a: int, b: int| 0 <= a < nv.works.len() && 0 <= b < nv.works.len() implies
            (nv.works[a].dependents.contains(b) <==> nv.works[b].deps.contains(a)) by {
            assert(v.works[a].dependents.contains(b) <==> v.works[b].deps.contains(a));
        }
        assert forall|a: int| #![trigger nv.works[a]] 0 <= a < nv.works.len() implies {
            &&& strictly_increasing(nv.works[a].deps)
            &&& strictly_increasing(nv.works[a].dependents)
            &&& forall|k: int| 0 <= k < nv.works[a].deps.len() ==> 0 <= #[trigger] nv.works[a].deps[k] < nv.works.len()
            &&& forall|k: int| 0 <= k < nv.works[a].dependents.len() ==> 0 <= #[trigger] nv.works[a].dependents[k] < nv.works.len()
        } by {
            assert(v.works[a].deps == nv.works[a].deps);
        }
    }
    assert(seq_wf(nv)) by {
        assert forall|k: int| 0 <= k < nv.transitions.len() implies (#[trigger] nv.transitions[k]).sequence == k by {
            if k < v.transitions.len() {
                assert(nv.transitions[k] == v.transitions[k]);
            }
        }
    }
    assert forall|j: int, k: int| 0 <= j < nv.works.len() && 0 <= k < nv.works[j].deps.len()
        && needs_completed_deps(nv.works[j].state, nv.works[j].wait)
        implies (#[trigger] nv.works[nv.works[j].deps[k]]).state is Completed by {
        let d = v.works[j].deps[k];
        assert(v.works[j] == nv.works[j] || j == i);
        if j == i {
            assert(v.works[d].state is Completed);
            assert(d != i);
        } else {
            assert(v.works[d].state is Completed);
            assert(d != i);
        }
    }
    if cancel_wf(v) && !v.works[i].state.spec_is_terminal() && !stopped(to) {
        assert forall|x: int, k: int| 0 <= x < nv.works.len() && stopped(nv.works[x].state) && 0 <= k
            < nv.works[x].dependents.len() implies (#[trigger] nv.works[nv.works[x].dependents[k]]).state.spec_is_terminal()
            || Seq::<int>::empty().contains(nv.works[x].dependents[k]) by {
            let c = v.works[x].dependents[k];
            assert(x != i);
            assert(nv.works[x] == v.works[x]);
            assert(v.works[c].state.spec_is_terminal() || Seq::<int>::empty().contains(c));
            assert(c != i);
        }
    }
}

/// Stopping instance `i` leaves its consumers as the only ones still to be
/// closed over.
pub proof fn lemma_walk_start(
    v: SchedulerView,
    i: int,
    to: LifecycleState,
    wait: Option<WaitReasonView>,
    reason: TransitionReasonView,
)
    requires
        struct_wf(v),
        cancel_wf(v),
        0 <= i < v.works.len(),
        !v.works[i].state.spec_is_terminal(),
    ensures
        walk_wf(set_state_spec(v, i, to, wait, reason), v.works[i].dependents),
{
    let nv = set_state_spec(v, i, to, wait, reason);
    assert forall|x: int, k: int| 0 <= x < nv.works.len() && stopped(nv.works[x].state) && 0 <= k
        < nv.works[x].dependents.len() implies (#[trigger] nv.works[nv.works[x].dependents[k]]).state.spec_is_terminal()
        || v.works[i].dependents.contains(nv.works[x].dependents[k]) by {
        let c = nv.works[x].dependents[k];
        assert(nv.works[x].dependents == v.works[x].dependents);
        assert(0 <= c < v.works.len());
        if x == i {
            assert(v.works[i].dependents[k] == c);
        } else {
            assert(nv.works[x] == v.works[x]);
            assert(v.works[c].state.spec_is_terminal() || Seq::<int>::empty().contains(c));
            assert(c != i);
        }
    }
}

/// Dropping a terminal instance from the walk's stack keeps the walk's
/// invariant.
pub proof fn lemma_walk_skip(v: SchedulerView, stack: Seq<int>)
    requires
        walk_wf(v, stack),
        stack.len() > 0,
        0 <= stack.last() < v.works.len(),
        v.works[stack.last()].state.spec_is_terminal(),
    ensures
        walk_wf(v, stack.drop_last()),
{
    assert forall|x: int, k: int| 0 <= x < v.works.len() && stopped(v.works[x].state) && 0 <= k
        < v.works[x].dependents.len() implies (#[trigger] v.works[v.works[x].dependents[k]]).state.spec_is_terminal()
        || stack.drop_last().contains(v.works[x].dependents[k]) by {
        let c = v.works[x].dependents[k];
        if stack.contains(c) && c != stack.last() {
            let q = choose|q: int| 0 <= q < stack.len() && stack[q] == c;
            assert(stack.drop_last()[q] == c);
        }
    }
}

/// Cancelling the last instance on the stack and pushing its consumers
/// keeps the walk's invariant.
pub proof fn lemma_walk_step(v: SchedulerView, stack: Seq<int>, reason: TransitionReasonView)
    requires
        struct_wf(v),
        walk_wf(v, stack),
        stack.len() > 0,
        0 <= stack.last() < v.works.len(),
    ensures
        walk_wf(
            set_state_spec(v, stack.last(), LifecycleState::Cancelled, None, reason),
            stack.drop_last() + v.works[stack.last()].dependents,
        ),
{
    let id = stack.last();
    let nv = set_state_spec(v, id, LifecycleState::Cancelled, None, reason);
    let ns = stack.drop_last() + v.works[id].dependents;
    assert forall|x: int, k: int| 0 <= x < nv.works.len() && stopped(nv.works[x].state) && 0 <= k
        < nv.works[x].dependents.len() implies (#[trigger] nv.works[nv.works[x].dependents[k]]).state.spec_is_terminal()
        || ns.contains(nv.works[x].dependents[k]) by {
        let c = nv.works[x].dependents[k];
        assert(nv.works[x].dependents == v.works[x].dependents);
        assert(0 <= c < v.works.len());
        if x == id {
            assert(ns[stack.len() - 1 + k] == c);
        } else {
            assert(nv.works[x] == v.works[x]);
            if c != id && !v.works[c].state.spec_is_terminal() {
                assert(stack.contains(c));
                let q = choose|q: int| 0 <= q < stack.len() && stack[q] == c;
                assert(q != stack.len() - 1);
                assert(ns[q] == c);
            }
        }
    }
}

/// A copy of an index list.
pub fn copy_indices(v: &Vec<usize>) -> (r: Vec<usize>)
    ensures
        r@ == v@,
{
    let mut out: Vec<usize> = Vec::new();
    let mut i: usize = 0;
    while i < v.len()
        invariant
            i <= v@.len(),
            out@ == v@.take(i as int),
        decreases v@.len() - i,
    {
        out.push(v[i]);
        proof {
            assert(v@.take(i + 1) =~= v@.take(i as int).push(v@[i as int]));
        }
        i = i + 1;
    }
    proof {
        assert(v@.take(v@.len() as int) =~= v@);
    }
    out
}

/// Admission, in ascending id order, of every ready (or resource-blocked)
/// instance that fits in what the budget has left at its turn; one that
/// does not fit records its exact deficit.
pub open spec fn admit_from(v: SchedulerView, i: int, admitted: Seq<Seq<char>>) -> (SchedulerView, Seq<Seq<char>>)
    decreases v.works.len() - i,
{
    if i < 0 || i >= v.works.len() {
        (v, admitted)
    } else {
        let w = v.works[i];
        let resource_wait = w.state is Blocked && w.wait matches Some(WaitReasonView::Resources { .. });
        if !(w.state is Ready) && !resource_wait {
            admit_from(v, i + 1, admitted)
        } else {
            let available = v.budget.spec_minus(v.allocated);
            if w.reservation.spec_fits_within(available) {
                let v1 = if resource_wait {
                    set_state_spec(v, i, LifecycleState::Ready, None, TransitionReasonView::ResourcesAvailable)
                } else {
                    v
                };
                let v2 = SchedulerView { allocated: v1.allocated.spec_plus(w.reservation), ..v1 };
                let v3 = set_state_spec(v2, i, LifecycleState::Running, None, TransitionReasonView::Admitted);
                admit_from(v3, i + 1, admitted.push(w.id))
            } else {
                let reason = WaitReasonView::Resources { deficit: spec_deficit(w.reservation, available) };
                let v1 = if w.wait != Some(reason) {
                    set_state_spec(v, i, LifecycleState::Blocked, Some(reason), TransitionReasonView::Waiting(reason))
                } else {
                    v
                };
                admit_from(v1, i + 1, admitted)
            }
        }
    }
}

/// Admission walks the instances in ascending id order, so the ids it
/// admits come out strictly ascending.
proof fn lemma_admit_sorted(v: SchedulerView, i: int, admitted: Seq<Seq<char>>)
    requires
        0 <= i,
        forall|a: int, b: int| 0 <= a < b < v.works.len() ==> seq_lt(v.works[a].id, v.works[b].id),
        strictly_sorted(admitted),
        forall|x: int, j: int| 0 <= x < admitted.len() && i <= j < v.works.len() ==> seq_lt(
            #[trigger] admitted[x],
            #[trigger] v.works[j].id,
        ),
    ensures
        strictly_sorted(admit_from(v, i, admitted).1),
    decreases v.works.len() - i,
{
    if i < v.works.len() {
        let w = v.works[i];
        let resource_wait = w.state is Blocked && w.wait matches Some(WaitReasonView::Resources { .. });
        if !(w.state is Ready) && !resource_wait {
            lemma_admit_sorted(v, i + 1, admitted);
        } else {
            let available = v.budget.spec_minus(v.allocated);
            if w.reservation.spec_fits_within(available) {
                let v1 = if resource_wait {
                    set_state_spec(v, i, LifecycleState::Ready, None, TransitionReasonView::ResourcesAvailable)
                } else {
                    v
                };
                let v2 = SchedulerView { allocated: v1.allocated.spec_plus(w.reservation), ..v1 };
                let v3 = set_state_spec(v2, i, LifecycleState::Running, None, TransitionReasonView::Admitted);
                let pushed = admitted.push(w.id);
                assert(v3.works.len() == v.works.len());
                assert forall|j: int| 0 <= j < v.works.len() implies #[trigger] v3.works[j].id == v.works[j].id by {}
                assert forall|a: int, b: int| 0 <= a < b < pushed.len() implies seq_lt(#[trigger] pushed[a], #[trigger] pushed[b]) by {
                    if b == admitted.len() {
                        assert(seq_lt(admitted[a], v.works[i].id));
                    } else {
                        assert(seq_lt(admitted[a], admitted[b]));
                    }
                }
                assert forall|x: int, j: int| 0 <= x < pushed.len() && i + 1 <= j < v3.works.len() implies seq_lt(
                    #[trigger] pushed[x],
                    #[trigger] v3.works[j].id,
                ) by {
                    assert(v3.works[j].id == v.works[j].id);
                    if x == admitted.len() {
                        assert(pushed[x] == v.works[i].id);
                    } else {
                        assert(pushed[x] == admitted[x]);
                        assert(seq_lt(admitted[x], v.works[j].id));
                    }
                }
                assert forall|a: int, b: int| 0 <= a < b < v3.works.len() implies seq_lt(v3.works[a].id, v3.works[b].id) by {
                    assert(v3.works[a].id == v.works[a].id && v3.works[b].id == v.works[b].id);
                }
                lemma_admit_sorted(v3, i + 1, pushed);
            } else {
                let reason = WaitReasonView::Resources { deficit: spec_deficit(w.reservation, available) };
                let v1 = if w.wait != Some(reason) {
                    set_state_spec(v, i, LifecycleState::Blocked, Some(reason), TransitionReasonView::Waiting(reason))
                } else {
                    v
                };
                assert forall|j: int| 0 <= j < v.works.len() implies #[trigger] v1.works[j].id == v.works[j].id by {}
                assert forall|a: int, b: int| 0 <= a < b < v1.works.len() implies seq_lt(v1.works[a].id, v1.works[b].id) by {
                    assert(v1.works[a].id == v.works[a].id && v1.works[b].id == v.works[b].id);
                }
                assert forall|x: int, j: int| 0 <= x < admitted.len() && i + 1 <= j < v1.works.len() implies seq_lt(
                    #[trigger] admitted[x],
                    #[trigger] v1.works[j].id,
                ) by {
                    assert(v1.works[j].id == v.works[j].id);
                }
                lemma_admit_sorted(v1, i + 1, admitted);
            }
        }
    }
}

// ---------------------------------------------------------------------
// Construction
// ---------------------------------------------------------------------

/// The claim in force for `unit`: the last one the contract lists for it.
pub open spec fn claim_for(units: Seq<WorkUnitClaim>, unit: Seq<char>) -> Option<WorkUnitClaim>
    decreases units.len(),
{
    if units.len() == 0 {
        None
    } else if units.last().work_unit@ == unit {
        Some(units.last())
    } else {
        claim_for(units.drop_last(), unit)
    }
}

pub open spec fn nested_slots(n: NestedParallelism) -> int {
    match n {
        NestedParallelism::Disabled => 0,
        NestedParallelism::Accounted { additional_cpu_slots } => additional_cpu_slots as int,
    }
}

/// The first contract violation of one instance on its own (duplicates
/// aside), checked in this order.
pub open spec fn instance_check(
    units: Seq<WorkUnitClaim>,
    inst: InstanceView,
    budget: ResourceAmount,
) -> Option<SchedulerErrorView> {
    let id = inst.instance_id;
    let r = inst.reservation;
    match claim_for(units, inst.work_unit) {
        None => Some(SchedulerErrorView::UnknownWorkUnit { instance_id: id, work_unit: inst.work_unit }),
        Some(claim) => if r.cpu_slots == 0 {
            Some(SchedulerErrorView::ZeroCpuReservation { instance_id: id })
        } else if r.memory_bytes == 0 {
            Some(SchedulerErrorView::ZeroMemoryReservation { instance_id: id })
        } else if r.cpu_slots < (if 1 + nested_slots(inst.nested_parallelism) <= u32::MAX {
            1 + nested_slots(inst.nested_parallelism)
        } else {
            u32::MAX as int
        }) {
            Some(SchedulerErrorView::NestedParallelismExceedsCpuReservation { instance_id: id })
        } else if r.external_process_slots > 0 && r.io_slots == 0 {
            Some(SchedulerErrorView::ExternalProcessWithoutIoReservation { instance_id: id })
        } else if r.cpu_slots < claim.minimum_cpu_slots || r.external_process_slots
            < claim.external_process_slots {
            Some(SchedulerErrorView::ReservationBelowWorkUnitMinimum { instance_id: id })
        } else if !r.spec_fits_within(budget) {
            Some(SchedulerErrorView::ReservationExceedsBudget { instance_id: id })
        } else {
            None
        },
    }
}

/// The first instance-level violation, in input order; a repeated id is
/// reported before anything else about that instance.
pub open spec fn first_instance_error(
    units: Seq<WorkUnitClaim>,
    insts: Seq<InstanceView>,
    budget: ResourceAmount,
    k: int,
) -> Option<SchedulerErrorView>
    decreases insts.len() - k,
{
    if k < 0 || k >= insts.len() {
        None
    } else if exists|a: int| 0 <= a < k && (#[trigger] insts[a]).instance_id == insts[k].instance_id {
        Some(SchedulerErrorView::DuplicateInstance { instance_id: insts[k].instance_id })
    } else {
        match instance_check(units, insts[k], budget) {
            Some(e) => Some(e),
            None => first_instance_error(units, insts, budget, k + 1),
        }
    }
}

pub open spec fn names_of(v: Seq<String>) -> Set<Seq<char>> {
    Set::new(|x: Seq<char>| exists|k: int| 0 <= k < v.len() && (#[trigger] v[k])@ == x)
}

pub open spec fn names_sorted(v: Seq<Seq<char>>) -> bool {
    forall|a: int, b: int| 0 <= a < b < v.len() ==> seq_lt(v[a], v[b])
}

/// Inserts `x` into the strictly ascending `v` (no change if present).
fn insert_sorted(v: &mut Vec<String>, x: String)
    requires
        names_sorted(strings_view(old(v)@)),
    ensures
        names_sorted(strings_view(final(v)@)),
        names_of(final(v)@) == names_of(old(v)@).insert(x@),
{
    let ghost old_v = v@;
    let mut p: usize = 0;
    let mut go = true;
    while go && p < v.len()
        invariant
            v@ == old_v,
            names_sorted(strings_view(v@)),
            p <= v@.len(),
            forall|a: int| 0 <= a < p ==> seq_lt(v@[a]@, x@),
            !go ==> p < v@.len() && !seq_lt(v@[p as int]@, x@),
        decreases v@.len() - p, if go { 1int } else { 0int },
    {
        if str_lt(v[p].as_str(), x.as_str()) {
            p = p + 1;
        } else {
            go = false;
        }
    }
    if p < v.len() && v[p] == x {
        proof {
            assert(names_of(v@) =~= names_of(v@).insert(x@)) by {
                assert(v@[p as int]@ == x@);
            }
        }
        return;
    }
    proof {
        if p < v@.len() {
            lemma_seq_lt_total(v@[p as int]@, x@);
            assert(seq_lt(x@, v@[p as int]@));
            assert forall|b: int| p <= b < old_v.len() implies seq_lt(x@, #[trigger] old_v[b]@) by {
                if b > p {
                    assert(seq_lt(strings_view(old_v)[p as int], strings_view(old_v)[b]));
                    lemma_seq_lt_transitive(x@, old_v[p as int]@, old_v[b]@);
                }
            }
        }
    }
    v.insert(p, x);
    proof {
        assert forall|a: int, b: int| 0 <= a < b < v@.len() implies seq_lt(
            strings_view(v@)[a],
            strings_view(v@)[b],
        ) by {
            let sv = strings_view(v@);
            let so = strings_view(old_v);
            if b < p {
                assert(sv[a] == so[a] && sv[b] == so[b]);
            } else if b == p {
                assert(sv[b] == x@);
                assert(sv[a] == so[a]);
            } else if a == p {
                assert(sv[b] == so[b - 1]);
                assert(old_v[b - 1]@ == so[b - 1]);
            } else if a < p {
                assert(sv[b] == so[b - 1]);
                assert(sv[a] == so[a]);
                if b - 1 >= p {
                    assert(old_v[b - 1]@ == so[b - 1]);
                    lemma_seq_lt_transitive(so[a], x@, so[b - 1]);
                }
            } else {
                assert(sv[a] == so[a - 1] && sv[b] == so[b - 1]);
            }
        }
        assert(names_of(v@) =~= names_of(old_v).insert(x@)) by {
            assert forall|y: Seq<char>| names_of(v@).contains(y) implies names_of(old_v).insert(x@).contains(y) by {
                let k = choose|k: int| 0 <= k < v@.len() && (#[trigger] v@[k])@ == y;
                if k < p {
                    assert(v@[k] == old_v[k]);
                } else if k > p {
                    assert(v@[k] == old_v[k - 1]);
                }
            }
            assert forall|y: Seq<char>| names_of(old_v).insert(x@).contains(y) implies names_of(v@).contains(y) by {
                if y == x@ {
                    assert(v@[p as int]@ == x@);
                } else {
                    let k = choose|k: int| 0 <= k < old_v.len() && (#[trigger] old_v[k])@ == y;
                    if k < p {
                        assert(v@[k] == old_v[k]);
                    } else {
                        assert(v@[k + 1] == old_v[k]);
                    }
                }
            }
        }
    }
}

/// The distinct names of `v`, in ascending order.
pub fn sorted_unique(v: &Vec<String>) -> (r: Vec<String>)
    ensures
        names_sorted(strings_view(r@)),
        names_of(r@) == names_of(v@),
{
    let mut out: Vec<String> = Vec::new();
    let mut i: usize = 0;
    proof {
        assert(names_of(out@) =~= names_of(v@.take(0)));
    }
    while i < v.len()
        invariant
            i <= v@.len(),
            names_sorted(strings_view(out@)),
            names_of(out@) == names_of(v@.take(i as int)),
        decreases v@.len() - i,
    {
        insert_sorted(&mut out, v[i].clone());
        proof {
            assert(names_of(v@.take(i + 1)) =~= names_of(v@.take(i as int)).insert(v@[i as int]@)) by {
                assert forall|y: Seq<char>| names_of(v@.take(i + 1)).contains(y) implies names_of(v@.take(i as int)).insert(v@[i as int]@).contains(y) by {
                    let k = choose|k: int| 0 <= k < i + 1 && (#[trigger] v@.take(i + 1)[k])@ == y;
                    if k < i {
                        assert(v@.take(i as int)[k] == v@.take(i + 1)[k]);
                    }
                }
                assert forall|y: Seq<char>| names_of(v@.take(i as int)).insert(v@[i as int]@).contains(y) implies names_of(v@.take(i + 1)).contains(y) by {
                    if y == v@[i as int]@ {
                        assert(v@.take(i + 1)[i as int] == v@[i as int]);
                    } else {
                        let k = choose|k: int| 0 <= k < i && (#[trigger] v@.take(i as int)[k])@ == y;
                        assert(v@.take(i + 1)[k] == v@.take(i as int)[k]);
                    }
                }
            }
        }
        i = i + 1;
    }
    proof {
        assert(v@.take(v@.len() as int) =~= v@);
    }
    out
}

/// The index of the claim in force for `unit`, if any.
fn claim_lookup(units: &Vec<WorkUnitClaim>, unit: &String) -> (r: Option<usize>)
    ensures
        r matches Some(k) ==> k < units@.len() && claim_for(units@, unit@) == Some(units@[k as int]),
        r is None ==> claim_for(units@, unit@) is None,
{
    let mut k: usize = units.len();
    proof {
        assert(units@.take(units@.len() as int) =~= units@);
    }
    while k > 0
        invariant
            k <= units@.len(),
            claim_for(units@, unit@) == claim_for(units@.take(k as int), unit@),
        decreases k,
    {
        proof {
            assert(units@.take(k as int).drop_last() =~= units@.take(k - 1));
            assert(units@.take(k as int).last() == units@[k - 1]);
        }
        if units[k - 1].work_unit == *unit {
            return Some(k - 1);
        }
        k = k - 1;
    }
    proof {
        assert(units@.take(0) =~= Seq::<WorkUnitClaim>::empty());
    }
    None
}

/// The first contract violation of `inst` on its own (duplicates aside).
fn check_instance(
    units: &Vec<WorkUnitClaim>,
    inst: &PhysicalWorkInstance,
    budget: ResourceAmount,
) -> (r: Option<SchedulerContractError>)
    ensures
        (match r {
            Some(e) => Some(e@),
            None => None::<SchedulerErrorView>,
        }) == instance_check(units@, inst@, budget),
{
    let claim = match claim_lookup(units, &inst.work_unit) {
        Some(k) => &units[k],
        None => return Some(
            SchedulerContractError::UnknownWorkUnit {
                instance_id: inst.instance_id.clone(),
                work_unit: inst.work_unit.clone(),
            },
        ),
    };
    let r = inst.reservation;
    if r.cpu_slots == 0 {
        return Some(SchedulerContractError::ZeroCpuReservation { instance_id: inst.instance_id.clone() });
    }
    if r.memory_bytes == 0 {
        return Some(SchedulerContractError::ZeroMemoryReservation { instance_id: inst.instance_id.clone() });
    }
    let nested_cpu_slots: u32 = match inst.nested_parallelism {
        NestedParallelism::Disabled => 0,
        NestedParallelism::Accounted { additional_cpu_slots } => additional_cpu_slots,
    };
    if r.cpu_slots < 1u32.saturating_add(nested_cpu_slots) {
        return Some(
            SchedulerContractError::NestedParallelismExceedsCpuReservation {
                instance_id: inst.instance_id.clone(),
            },
        );
    }
    if r.external_process_slots > 0 && r.io_slots == 0 {
        return Some(
            SchedulerContractError::ExternalProcessWithoutIoReservation {
                instance_id: inst.instance_id.clone(),
            },
        );
    }
    if r.cpu_slots < claim.minimum_cpu_slots || r.external_process_slots < claim.external_process_slots {
        return Some(
            SchedulerContractError::ReservationBelowWorkUnitMinimum {
                instance_id: inst.instance_id.clone(),
            },
        );
    }
    if !r.fits_within(budget) {
        return Some(
            SchedulerContractError::ReservationExceedsBudget { instance_id: inst.instance_id.clone() },
        );
    }
    None
}

pub open spec fn defs_sorted(defs: Seq<InstanceView>) -> bool {
    forall|a: int, b: int| 0 <= a < b < defs.len() ==> seq_lt(defs[a].instance_id, defs[b].instance_id)
}

/// `defs` holds exactly the instances of `insts` (each once).
#[verifier::opaque]
pub open spec fn same_instances(defs: Seq<InstanceView>, insts: Seq<InstanceView>) -> bool {
    &&& forall|j: int| 0 <= j < defs.len() ==> insts.contains(#[trigger] defs[j])
    &&& forall|a: int| 0 <= a < insts.len() ==> defs.contains(#[trigger] insts[a])
}

pub proof fn lemma_same_def(defs: Seq<InstanceView>, insts: Seq<InstanceView>, j: int)
    requires
        same_instances(defs, insts),
        0 <= j < defs.len(),
    ensures
        insts.contains(defs[j]),
{
    reveal(same_instances);
}

pub proof fn lemma_same_inst(defs: Seq<InstanceView>, insts: Seq<InstanceView>, a: int)
    requires
        same_instances(defs, insts),
        0 <= a < insts.len(),
    ensures
        defs.contains(insts[a]),
{
    reveal(same_instances);
}

/// Where `id` belongs in the ascending `defs`: after every smaller id.
fn insertion_point(defs: &Vec<PhysicalWorkInstance>, id: &String) -> (p: usize)
    requires
        defs_sorted(insts_view(defs@)),
    ensures
        p <= defs@.len(),
        forall|j: int| 0 <= j < p ==> seq_lt(#[trigger] defs@[j].instance_id@, id@),
        forall|j: int| p <= j < defs@.len() ==> !seq_lt(#[trigger] defs@[j].instance_id@, id@),
{
    let ghost dv = insts_view(defs@);
    let mut p: usize = 0;
    let mut go = true;
    while go && p < defs.len()
        invariant
            dv == insts_view(defs@),
            defs_sorted(dv),
            p <= defs@.len(),
            forall|j: int| 0 <= j < p ==> seq_lt(#[trigger] defs@[j].instance_id@, id@),
            !go ==> p < defs@.len() && !seq_lt(defs@[p as int].instance_id@, id@),
        decreases defs@.len() - p, if go { 1int } else { 0int },
    {
        if str_lt(defs[p].instance_id.as_str(), id.as_str()) {
            p = p + 1;
        } else {
            go = false;
        }
    }
    proof {
        assert forall|j: int| p <= j < defs@.len() implies !seq_lt(#[trigger] defs@[j].instance_id@, id@) by {
            if j > p {
                assert(dv[p as int].instance_id == defs@[p as int].instance_id@);
                assert(dv[j].instance_id == defs@[j].instance_id@);
                assert(seq_lt(dv[p as int].instance_id, dv[j].instance_id));
                if seq_lt(defs@[j].instance_id@, id@) {
                    lemma_seq_lt_transitive(defs@[p as int].instance_id@, defs@[j].instance_id@, id@);
                }
            }
        }
    }
    p
}

proof fn lemma_insert_keeps_sorted_and_same(
    old_defs: Seq<InstanceView>,
    defs: Seq<InstanceView>,
    p: int,
    inst: InstanceView,
    insts: Seq<InstanceView>,
    k: int,
)
    requires
        0 <= p <= old_defs.len(),
        defs == old_defs.insert(p, inst),
        defs_sorted(old_defs),
        forall|j: int| 0 <= j < p ==> seq_lt(#[trigger] old_defs[j].instance_id, inst.instance_id),
        forall|j: int| p <= j < old_defs.len() ==> !seq_lt(#[trigger] old_defs[j].instance_id, inst.instance_id),
        p < old_defs.len() ==> old_defs[p].instance_id != inst.instance_id,
        0 <= k < insts.len(),
        insts[k] == inst,
        same_instances(old_defs, insts.take(k)),
    ensures
        defs_sorted(defs),
        same_instances(defs, insts.take(k + 1)),
{
    reveal(same_instances);
    let x = inst.instance_id;
    assert forall|a: int, b: int| 0 <= a < b < defs.len() implies seq_lt(defs[a].instance_id, defs[b].instance_id) by {
        if b < p {
            assert(defs[a] == old_defs[a] && defs[b] == old_defs[b]);
        } else if b == p {
            assert(defs[a] == old_defs[a]);
        } else if a == p {
            assert(defs[b] == old_defs[b - 1]);
            lemma_seq_lt_total(old_defs[b - 1].instance_id, x);
            if old_defs[b - 1].instance_id == x && b - 1 > p {
                assert(seq_lt(old_defs[p].instance_id, old_defs[b - 1].instance_id));
                lemma_seq_lt_total(old_defs[p].instance_id, x);
                lemma_seq_lt_asymmetric(old_defs[p].instance_id, x);
            }
        } else if a < p {
            assert(defs[a] == old_defs[a]);
            assert(defs[b] == old_defs[b - 1]);
            lemma_seq_lt_total(old_defs[b - 1].instance_id, x);
            if seq_lt(x, old_defs[b - 1].instance_id) {
                lemma_seq_lt_transitive(old_defs[a].instance_id, x, old_defs[b - 1].instance_id);
            } else if old_defs[b - 1].instance_id == x && b - 1 > p {
                assert(seq_lt(old_defs[p].instance_id, old_defs[b - 1].instance_id));
                lemma_seq_lt_total(old_defs[p].instance_id, x);
                lemma_seq_lt_asymmetric(old_defs[p].instance_id, x);
            }
        } else {
            assert(defs[a] == old_defs[a - 1] && defs[b] == old_defs[b - 1]);
        }
    }
    let t1 = insts.take(k + 1);
    assert(t1 =~= insts.take(k).push(inst));
    let t0 = insts.take(k);
    assert forall|j: int| 0 <= j < defs.len() implies t1.contains(#[trigger] defs[j]) by {
        if j < p {
            assert(t0.contains(old_defs[j]));
            let a = choose|a: int| 0 <= a < t0.len() && t0[a] == old_defs[j];
            assert(t1[a] == defs[j]);
        } else if j == p {
            assert(t1[k] == defs[j]);
        } else {
            assert(t0.contains(old_defs[j - 1]));
            let a = choose|a: int| 0 <= a < t0.len() && t0[a] == old_defs[j - 1];
            assert(t1[a] == defs[j]);
        }
    }
    assert forall|a: int| 0 <= a < t1.len() implies defs.contains(#[trigger] t1[a]) by {
        if a == k {
            assert(defs[p] == t1[a]);
        } else {
            assert(t1[a] == t0[a]);
            assert(old_defs.contains(t0[a]));
            let j = choose|j: int| 0 <= j < old_defs.len() && old_defs[j] == t0[a];
            if j < p {
                assert(defs[j] == t1[a]);
            } else {
                assert(defs[j + 1] == t1[a]);
            }
        }
    }
}

/// Checks every instance on its own, in input order, and collects copies
/// of them in ascending id order.
fn collect_instances(
    units: &Vec<WorkUnitClaim>,
    instances: &Vec<PhysicalWorkInstance>,
    budget: ResourceAmount,
) -> (r: Result<Vec<PhysicalWorkInstance>, SchedulerContractError>)
    ensures
        r matches Err(e) ==> first_instance_error(units@, insts_view(instances@), budget, 0) == Some(e@),
        r matches Ok(defs) ==> {
            &&& first_instance_error(units@, insts_view(instances@), budget, 0) is None
            &&& defs_sorted(insts_view(defs@))
            &&& same_instances(insts_view(defs@), insts_view(instances@))
        },
{
    let ghost insts = insts_view(instances@);
    let mut defs: Vec<PhysicalWorkInstance> = Vec::new();
    let mut k: usize = 0;
    proof {
        assert(insts_view(defs@) =~= Seq::<InstanceView>::empty());
        assert(insts.take(0) =~= Seq::<InstanceView>::empty());
        assert(same_instances(insts_view(defs@), insts.take(0))) by {
            reveal(same_instances);
        }
    }
    while k < instances.len()
        invariant
            k <= insts.len(),
            insts == insts_view(instances@),
            defs_sorted(insts_view(defs@)),
            same_instances(insts_view(defs@), insts.take(k as int)),
            first_instance_error(units@, insts, budget, 0) == first_instance_error(units@, insts, budget, k as int),
        decreases insts.len() - k,
    {
        let inst = instances[k].duplicate();
        let ghost dv = insts_view(defs@);
        proof {
            assert(inst@ == insts[k as int]);
        }
        let p = insertion_point(&defs, &inst.instance_id);
        if p < defs.len() && defs[p].instance_id == inst.instance_id {
            proof {
                assert(dv[p as int].instance_id == inst@.instance_id);
                lemma_same_def(dv, insts.take(k as int), p as int);
                let a = choose|a: int| 0 <= a < k && insts.take(k as int)[a] == dv[p as int];
                assert(insts[a] == dv[p as int]);
                assert(exists|a: int| 0 <= a < k && (#[trigger] insts[a]).instance_id == insts[k as int].instance_id);
            }
            return Err(SchedulerContractError::DuplicateInstance { instance_id: inst.instance_id });
        }
        proof {
            assert forall|a: int| 0 <= a < k implies (#[trigger] insts[a]).instance_id != insts[k as int].instance_id by {
                assert(insts.take(k as int)[a] == insts[a]);
                lemma_same_inst(dv, insts.take(k as int), a);
                let j = choose|j: int| 0 <= j < dv.len() && dv[j] == insts.take(k as int)[a];
                assert(dv[j].instance_id == defs@[j].instance_id@);
                if j < p {
                    lemma_seq_lt_irreflexive(inst.instance_id@);
                } else if j > p {
                    assert(seq_lt(dv[p as int].instance_id, dv[j].instance_id));
                    lemma_seq_lt_total(defs@[p as int].instance_id@, inst.instance_id@);
                    if defs@[j].instance_id@ == inst.instance_id@ {
                        lemma_seq_lt_asymmetric(defs@[p as int].instance_id@, inst.instance_id@);
                    }
                }
            }
            assert(!exists|a: int| 0 <= a < k && (#[trigger] insts[a]).instance_id == insts[k as int].instance_id);
        }
        match check_instance(units, &inst, budget) {
            Some(e) => return Err(e),
            None => {},
        }
        proof {
            assert forall|j: int| 0 <= j < p implies seq_lt(#[trigger] dv[j].instance_id, insts[k as int].instance_id) by {
                assert(dv[j].instance_id == defs@[j].instance_id@);
            }
            assert forall|j: int| p <= j < dv.len() implies !seq_lt(#[trigger] dv[j].instance_id, insts[k as int].instance_id) by {
                assert(dv[j].instance_id == defs@[j].instance_id@);
            }
        }
        defs.insert(p, inst);
        proof {
            assert(insts_view(defs@) =~= dv.insert(p as int, insts[k as int]));
            lemma_insert_keeps_sorted_and_same(dv, insts_view(defs@), p as int, insts[k as int], insts, k as int);
        }
        k = k + 1;
    }
    proof {
        assert(insts.take(k as int) =~= insts);
    }
    Ok(defs)
}


pub proof fn lemma_owned_sum_idle(ws: Seq<WorkView>)
    requires
        forall|i: int| 0 <= i < ws.len() ==> !(#[trigger] ws[i]).state.spec_owns_resources(),
    ensures
        owned_sum(ws) == (AmountSum { cpu: 0, mem: 0, io: 0, ext: 0 }),
    decreases ws.len(),
{
    if ws.len() > 0 {
        assert(!ws[ws.len() - 1].state.spec_owns_resources());
        lemma_owned_sum_idle(ws.drop_last());
    }
}

/// The first violation of the scheduling contract, in the order the checks
/// are made: each instance on its own, in input order; then a dependency
/// that names no instance; then a dependency cycle.
pub open spec fn construction_error(
    units: Seq<WorkUnitClaim>,
    insts: Seq<InstanceView>,
    budget: ResourceAmount,
) -> Option<SchedulerErrorView> {
    match first_instance_error(units, insts, budget, 0) {
        Some(e) => Some(e),
        None => match unknown_dependency_error(insts) {
            Some(e) => Some(e),
            None => if dependencies_acyclic(insts) {
                None
            } else {
                Some(SchedulerErrorView::DependencyCycle)
            },
        },
    }
}

pub open spec fn zero_amount() -> ResourceAmount {
    ResourceAmount { cpu_slots: 0, memory_bytes: 0, io_slots: 0, external_process_slots: 0 }
}

/// The ids of the instances at positions `ds`, in order.
pub open spec fn ids_at(ws: Seq<WorkView>, ds: Seq<int>) -> Seq<Seq<char>> {
    ds.map_values(|d: int| ws[d].id)
}

/// An instance's first recorded state: ready without producers, else
/// blocked on all of them.
pub open spec fn initial_work(ws: Seq<WorkView>, i: int) -> bool {
    if ws[i].deps.len() == 0 {
        ws[i].state is Ready && ws[i].wait is None
    } else {
        ws[i].state is Blocked && ws[i].wait == Some(
            WaitReasonView::Dependencies { pending: ids_at(ws, ws[i].deps) },
        )
    }
}

/// The transition that records an instance's first state.
pub open spec fn initial_transition(ws: Seq<WorkView>, k: int) -> TransitionView {
    TransitionView {
        sequence: k as u64,
        instance_id: ws[k].id,
        from: None,
        to: ws[k].state,
        reason: if ws[k].deps.len() == 0 {
            TransitionReasonView::DependenciesSatisfied
        } else {
            TransitionReasonView::Waiting(ws[k].wait->0)
        },
    }
}

/// The scheduler right after construction: nothing allocated; each input
/// instance once, in ascending id order, with its reservation and exactly
/// the producers it names; each in its first state; one transition per
/// instance, in that order.
pub open spec fn initial_view(v: SchedulerView, insts: Seq<InstanceView>, budget: ResourceAmount) -> bool {
    let ws = v.works;
    &&& v.budget == budget
    &&& v.allocated == zero_amount()
    &&& forall|i: int| #![trigger ws[i]] 0 <= i < ws.len() ==> exists|a: int| {
        &&& 0 <= a < insts.len()
        &&& (#[trigger] insts[a]).instance_id == ws[i].id
        &&& insts[a].reservation == ws[i].reservation
        &&& forall|j: int| 0 <= j < ws.len() ==> (ws[i].deps.contains(j) <==> insts[a].dependencies.contains(ws[j].id))
    }
    &&& forall|a: int| #![trigger insts[a]] 0 <= a < insts.len() ==> exists|i: int| 0 <= i < ws.len() && (#[trigger] ws[i]).id == insts[a].instance_id
    &&& forall|i: int| 0 <= i < ws.len() ==> #[trigger] initial_work(ws, i)
    &&& v.transitions.len() == ws.len()
    &&& forall|k: int| 0 <= k < ws.len() ==> #[trigger] v.transitions[k] == initial_transition(ws, k)
}

proof fn lemma_pending_all(v: SchedulerView, ds: Seq<int>)
    requires
        forall|k: int| 0 <= k < ds.len() ==> 0 <= #[trigger] ds[k] < v.works.len(),
        forall|j: int| 0 <= j < v.works.len() ==> !((#[trigger] v.works[j]).state is Completed),
    ensures
        pending_ids(v, ds) == ids_at(v.works, ds),
    decreases ds.len(),
{
    if ds.len() > 0 {
        assert(forall|k: int| #![trigger ds.drop_first()[k]] 0 <= k < ds.drop_first().len() ==> ds.drop_first()[k] == ds[k + 1]);
        lemma_pending_all(v, ds.drop_first());
        assert(ids_at(v.works, ds) =~= seq![v.works[ds[0]].id] + ids_at(v.works, ds.drop_first()));
    }
}


proof fn lemma_initial_matches_input(
    v: SchedulerView,
    dv: Seq<InstanceView>,
    insts: Seq<InstanceView>,
    gv: Seq<Seq<int>>,
)
    requires
        same_instances(dv, insts),
        graph_of(dv, gv),
        v.works.len() == dv.len(),
        forall|i: int| 0 <= i < dv.len() ==> (#[trigger] v.works[i]).id == dv[i].instance_id
            && v.works[i].reservation == dv[i].reservation && v.works[i].deps == gv[i],
    ensures
        forall|i: int| #![trigger v.works[i]] 0 <= i < v.works.len() ==> exists|a: int| {
            &&& 0 <= a < insts.len()
            &&& (#[trigger] insts[a]).instance_id == v.works[i].id
            &&& insts[a].reservation == v.works[i].reservation
            &&& forall|j: int| 0 <= j < v.works.len() ==> (v.works[i].deps.contains(j) <==> insts[a].dependencies.contains(v.works[j].id))
        },
        forall|a: int| #![trigger insts[a]] 0 <= a < insts.len() ==> exists|i: int| 0 <= i < v.works.len() && (#[trigger] v.works[i]).id == insts[a].instance_id,
{
    assert forall|i: int| #![trigger v.works[i]] 0 <= i < v.works.len() implies exists|a: int| {
        &&& 0 <= a < insts.len()
        &&& (#[trigger] insts[a]).instance_id == v.works[i].id
        &&& insts[a].reservation == v.works[i].reservation
        &&& forall|j: int| 0 <= j < v.works.len() ==> (v.works[i].deps.contains(j) <==> insts[a].dependencies.contains(v.works[j].id))
    } by {
        lemma_same_def(dv, insts, i);
        let a = choose|a: int| 0 <= a < insts.len() && insts[a] == dv[i];
        assert forall|j: int| 0 <= j < v.works.len() implies (v.works[i].deps.contains(j) <==> insts[a].dependencies.contains(v.works[j].id)) by {
            assert(v.works[j].id == dv[j].instance_id);
            assert(gv[i].contains(j) <==> crate::dependency_graph::dep_rel(dv, i, j));
        }
    }
    assert forall|a: int| #![trigger insts[a]] 0 <= a < insts.len() implies exists|i: int| 0 <= i < v.works.len() && (#[trigger] v.works[i]).id == insts[a].instance_id by {
        lemma_same_inst(dv, insts, a);
        let i = choose|i: int| 0 <= i < dv.len() && dv[i] == insts[a];
        assert(v.works[i].id == dv[i].instance_id);
    }
}

impl View for ResourceScheduler {
    type V = SchedulerView;

    closed spec fn view(&self) -> SchedulerView {
        SchedulerView {
            budget: self.budget,
            allocated: self.allocated,
            works: Seq::new(
                self.defs@.len(),
                |i: int|
                    WorkView {
                        id: self.defs@[i].instance_id@,
                        reservation: self.defs@[i].reservation,
                        deps: indices_view(self.deps@[i]@),
                        dependents: indices_view(self.dependents@[i]@),
                        state: self.states@[i],
                        wait: opt_wait_view(self.waits@[i]),
                    },
            ),
            transitions: self.transitions@.map_values(|t: LifecycleTransition| t@),
        }
    }
}

impl ResourceScheduler {
    closed spec fn inner_wf(&self) -> bool {
        &&& self.deps@.len() == self.defs@.len()
        &&& self.dependents@.len() == self.defs@.len()
        &&& self.states@.len() == self.defs@.len()
        &&& self.waits@.len() == self.defs@.len()
    }

    /// The scheduler's invariant holds.
    pub closed spec fn wf(&self) -> bool {
        self.inner_wf() && view_wf(self@)
    }

    proof fn lemma_view_facts(&self)
        requires
            self.inner_wf(),
        ensures
            self@.works.len() == self.defs@.len(),
            forall|i: int| 0 <= i < self.defs@.len() ==> (#[trigger] self@.works[i]).id
                == self.defs@[i].instance_id@ && self@.works[i].state == self.states@[i]
                && self@.works[i].reservation == self.defs@[i].reservation
                && self@.works[i].wait == opt_wait_view(self.waits@[i])
                && self@.works[i].deps == indices_view(self.deps@[i]@)
                && self@.works[i].dependents == indices_view(self.dependents@[i]@),
            self@.transitions.len() == self.transitions@.len(),
            forall|k: int| 0 <= k < self.transitions@.len() ==> (#[trigger] self@.transitions[k])
                == self.transitions@[k]@,
            self.transitions@.len() <= usize::MAX,
    {
        assert(self.transitions.len() == self.transitions@.len());
    }


    /// A scheduler over the checked, ascending `defs` and their resolved
    /// producer and consumer lists, with every instance in its first state.
    fn initial(
        budget: ResourceAmount,
        defs: Vec<PhysicalWorkInstance>,
        deps: Vec<Vec<usize>>,
        dependents: Vec<Vec<usize>>,
    ) -> (s: Self)
        requires
            defs_sorted(insts_view(defs@)),
            graph_of(insts_view(defs@), graph_view(deps@)),
            consumers_of(insts_view(defs@), graph_view(dependents@)),
        ensures
            s.wf(),
            s@.budget == budget,
            s@.allocated == zero_amount(),
            s@.works.len() == defs@.len(),
            forall|i: int| 0 <= i < defs@.len() ==> (#[trigger] s@.works[i]).id == defs@[i].instance_id@
                && s@.works[i].reservation == defs@[i].reservation
                && s@.works[i].deps == indices_view(deps@[i]@),
            forall|i: int| 0 <= i < defs@.len() ==> #[trigger] initial_work(s@.works, i),
            s@.transitions.len() == defs@.len(),
            forall|k: int| 0 <= k < defs@.len() ==> #[trigger] s@.transitions[k] == initial_transition(s@.works, k),
    {
        let ghost dv = insts_view(defs@);
        let ghost gv = graph_view(deps@);
        let ghost cv = graph_view(dependents@);
        let n = defs.len();
        let mut states: Vec<LifecycleState> = Vec::new();
        let mut waits: Vec<Option<WaitReason>> = Vec::new();
        let mut f: usize = 0;
        while f < n
            invariant
                f <= n,
                states@.len() == f,
                waits@.len() == f,
                forall|j: int| 0 <= j < f ==> #[trigger] states@[j] == LifecycleState::Blocked && waits@[j] is None,
            decreases n - f,
        {
            states.push(LifecycleState::Blocked);
            waits.push(None);
            f = f + 1;
        }
        let mut s = ResourceScheduler {
            budget,
            allocated: ResourceAmount { cpu_slots: 0, memory_bytes: 0, io_slots: 0, external_process_slots: 0 },
            defs,
            deps,
            dependents,
            states,
            waits,
            transitions: Vec::new(),
        };
        proof {
            s.lemma_view_facts();
            let v = s@;
            assert forall|i: int| 0 <= i < n implies (#[trigger] v.works[i]).deps == gv[i] && v.works[i].dependents
                == cv[i] && v.works[i].id == dv[i].instance_id by {}
            assert(struct_wf(v)) by {
                assert forall|i: int, j: int| 0 <= i < j < n implies seq_lt(v.works[i].id, v.works[j].id) by {
                    assert(v.works[i].id == dv[i].instance_id && v.works[j].id == dv[j].instance_id);
                }
                assert forall|i: int, j: int| 0 <= i < n && 0 <= j < n implies (v.works[i].dependents.contains(j)
                    <==> v.works[j].deps.contains(i)) by {
                    assert(v.works[i].dependents == cv[i] && v.works[j].deps == gv[j]);
                    assert(cv[i].contains(j) <==> crate::dependency_graph::dep_rel(dv, j, i));
                    assert(gv[j].contains(i) <==> crate::dependency_graph::dep_rel(dv, j, i));
                }
                assert forall|i: int| #![trigger v.works[i]] 0 <= i < n implies {
                    &&& strictly_increasing(v.works[i].deps)
                    &&& strictly_increasing(v.works[i].dependents)
                    &&& forall|k: int| 0 <= k < v.works[i].deps.len() ==> 0 <= #[trigger] v.works[i].deps[k] < n
                    &&& forall|k: int| 0 <= k < v.works[i].dependents.len() ==> 0 <= #[trigger] v.works[i].dependents[k] < n
                } by {
                    assert(v.works[i].deps == gv[i] && v.works[i].dependents == cv[i]);
                }
            }
            lemma_owned_sum_idle(v.works);
        }
        let ghost v0 = s@;
        let mut i: usize = 0;
        while i < n
            invariant
                n == s.defs@.len(),
                s.wf(),
                i <= n,
                s@.budget == v0.budget,
                s@.allocated == v0.allocated,
                s@.works.len() == n,
                forall|j: int| 0 <= j < n ==> (#[trigger] s@.works[j]).id == v0.works[j].id && s@.works[j].deps
                    == v0.works[j].deps && s@.works[j].dependents == v0.works[j].dependents
                    && s@.works[j].reservation == v0.works[j].reservation,
                forall|j: int| 0 <= j < n ==> !((#[trigger] s@.works[j]).state is Completed),
                forall|j: int| i <= j < n ==> (#[trigger] s@.works[j]).state is Blocked && s@.works[j].wait is None,
                forall|j: int| 0 <= j < i ==> #[trigger] initial_work(s@.works, j),
                s@.transitions.len() == i,
                forall|k: int| 0 <= k < i ==> #[trigger] s@.transitions[k] == initial_transition(s@.works, k),
            decreases n - i,
        {
            proof {
                s.lemma_view_facts();
            }
            let ghost v = s@;
            let pending = s.pending_dependencies(i);
            proof {
                lemma_pending_all(v, v.works[i as int].deps);
                lemma_pending_empty(v, v.works[i as int].deps);
                assert(!has_transition_for(v.transitions, v.works[i as int].id)) by {
                    if has_transition_for(v.transitions, v.works[i as int].id) {
                        let k = choose|k: int| 0 <= k < v.transitions.len() && (#[trigger] v.transitions[k]).instance_id
                            == v.works[i as int].id;
                        assert(v.transitions[k] == initial_transition(v.works, k));
                        assert(seq_lt(v.works[k].id, v.works[i as int].id));
                        lemma_seq_lt_irreflexive(v.works[i as int].id);
                    }
                }
                assert(v.transitions.len() <= u64::MAX);
            }
            if pending.len() == 0 {
                proof {
                    assert(strings_view(pending@).len() == 0);
                    assert(ids_at(v.works, v.works[i as int].deps).len() == v.works[i as int].deps.len());
                    lemma_set_state_wf(
                        v,
                        i as int,
                        LifecycleState::Ready,
                        None,
                        TransitionReasonView::DependenciesSatisfied,
                    );
                }
                s.set_state(i, LifecycleState::Ready, None, TransitionReason::DependenciesSatisfied);
            } else {
                let reason = WaitReason::Dependencies { pending };
                let ghost w = reason@;
                proof {
                    assert(ids_at(v.works, v.works[i as int].deps).len() == v.works[i as int].deps.len());
                    lemma_set_state_wf(
                        v,
                        i as int,
                        LifecycleState::Blocked,
                        Some(w),
                        TransitionReasonView::Waiting(w),
                    );
                }
                let copy = reason.duplicate();
                s.set_state(i, LifecycleState::Blocked, Some(copy), TransitionReason::Waiting(reason));
            }
            proof {
                let nv = s@;
                assert forall|k: int| 0 <= k < i + 1 implies #[trigger] nv.transitions[k] == initial_transition(nv.works, k) by {
                    if k < i {
                        assert(nv.transitions[k] == v.transitions[k]);
                        assert(nv.works[k] == v.works[k]);
                    }
                }
                assert forall|j: int| 0 <= j < i + 1 implies #[trigger] initial_work(nv.works, j) by {
                    if j < i {
                        assert(nv.works[j] == v.works[j]);
                        assert(initial_work(v.works, j));
                        assert(ids_at(nv.works, nv.works[j].deps) =~= ids_at(v.works, v.works[j].deps));
                    } else {
                        assert(ids_at(nv.works, nv.works[j].deps) =~= ids_at(v.works, v.works[j].deps));
                    }
                }
            }
            i = i + 1;
        }
        proof {
            s.lemma_view_facts();
        }
        s
    }

    /// Checks `instances` against the contract and the budget and builds
    /// the scheduler over them; the first violation found is returned.
    #[verifier::rlimit(80)]
    pub fn new(
        contract: &PhysicalWorkContract,
        instances: Vec<PhysicalWorkInstance>,
        budget: ResourceAmount,
    ) -> (r: Result<Self, SchedulerContractError>)
        ensures
            match construction_error(contract.units@, insts_view(instances@), budget) {
                Some(e) => r matches Err(x) && x@ == e,
                None => r matches Ok(s) && s.wf() && initial_view(s@, insts_view(instances@), budget),
            },
    {
        let ghost insts = insts_view(instances@);
        let defs = match collect_instances(&contract.units, &instances, budget) {
            Ok(d) => d,
            Err(e) => return Err(e),
        };
        let ghost dv = insts_view(defs@);
        let deps = match resolve_producers(&defs) {
            Ok(g) => g,
            Err(e) => {
                proof {
                    let i = choose|i: int| {
                        &&& 0 <= i < dv.len()
                        &&& #[trigger] has_unknown(dv, i)
                        &&& forall|b: int| 0 <= b < i ==> !#[trigger] has_unknown(dv, b)
                        &&& e@ == SchedulerErrorView::UnknownDependency {
                            instance_id: dv[i].instance_id,
                            dependency: crate::dependency_graph::least_unknown(dv, dv[i].dependencies)->0,
                        }
                    };
                    lemma_unknown_dependency_found(dv, insts, i);
                }
                return Err(e);
            },
        };
        proof {
            lemma_no_unknown_dependency(dv, insts);
            lemma_acyclic_same(dv, insts, graph_view(deps@));
            let gv = graph_view(deps@);
            assert forall|i: int, k: int| 0 <= i < gv.len() && 0 <= k < gv[i].len() implies 0 <= #[trigger] gv[i][k] < gv.len() by {
                assert(0 <= gv[i][k] < dv.len());
            }
        }
        let dependents = consumer_lists(&deps, Ghost(dv));
        if !is_acyclic(&deps) {
            return Err(SchedulerContractError::DependencyCycle);
        }
        let ghost gv = graph_view(deps@);
        let s = Self::initial(budget, defs, deps, dependents);
        proof {
            lemma_initial_matches_input(s@, dv, insts, gv);
        }
        Ok(s)
    }

    /// The index of the instance named `id`, if any.
    fn find(&self, id: &String) -> (r: Option<usize>)
        requires
            self.wf(),
        ensures
            r matches Some(i) ==> find_spec(self@, id@) == Some(i as int),
            r is None ==> find_spec(self@, id@) is None,
    {
        proof {
            self.lemma_view_facts();
        }
        let mut i: usize = 0;
        while i < self.defs.len()
            invariant
                self.wf(),
                i <= self.defs@.len(),
                forall|j: int| 0 <= j < i ==> (#[trigger] self@.works[j]).id != id@,
            decreases self.defs@.len() - i,
        {
            proof {
                self.lemma_view_facts();
            }
            if self.defs[i].instance_id == *id {
                proof {
                    let v = self@;
                    assert(v.works[i as int].id == id@);
                    let c = choose|k: int| 0 <= k < v.works.len() && (#[trigger] v.works[k]).id == id@;
                    if c != i {
                        if c < i {
                            lemma_seq_lt_irreflexive(id@);
                        } else {
                            lemma_seq_lt_irreflexive(id@);
                        }
                    }
                }
                return Some(i);
            }
            i = i + 1;
        }
        None
    }

    /// Records a state change of instance `i` (its state, its wait reason,
    /// and one transition naming why).
    fn set_state(
        &mut self,
        i: usize,
        to: LifecycleState,
        wait_reason: Option<WaitReason>,
        reason: TransitionReason,
    )
        requires
            old(self).inner_wf(),
            i < old(self).defs@.len(),
        ensures
            final(self).inner_wf(),
            final(self).defs@ == old(self).defs@,
            final(self).deps@ == old(self).deps@,
            final(self).dependents@ == old(self).dependents@,
            final(self).budget == old(self).budget,
            final(self).allocated == old(self).allocated,
            final(self)@ == set_state_spec(old(self)@, i as int, to, opt_wait_view(wait_reason), reason@),
    {
        proof {
            self.lemma_view_facts();
        }
        let ghost old_view = self@;
        let mut seen = false;
        let mut k: usize = 0;
        while k < self.transitions.len()
            invariant
                self.inner_wf(),
                self@ == old_view,
                i < self.defs@.len(),
                k <= self.transitions@.len(),
                seen <==> exists|m: int| 0 <= m < k && (#[trigger] self@.transitions[m]).instance_id
                    == self@.works[i as int].id,
            decreases self.transitions@.len() - k,
        {
            proof {
                self.lemma_view_facts();
            }
            let same = self.transitions[k].instance_id == self.defs[i].instance_id;
            proof {
                assert(self@.transitions[k as int] == self.transitions@[k as int]@);
                assert(same == (self@.transitions[k as int].instance_id == self@.works[i as int].id));
                if !same {
                    assert forall|m: int| 0 <= m < k + 1 && (#[trigger] self@.transitions[m]).instance_id
                        == self@.works[i as int].id implies 0 <= m < k by {}
                }
            }
            if same {
                seen = true;
            }
            k = k + 1;
        }
        let from = if seen {
            Some(self.states[i])
        } else {
            None
        };
        let sequence = self.transitions.len() as u64;
        let instance_id = self.defs[i].instance_id.clone();
        self.states.set(i, to);
        self.waits.set(i, wait_reason);
        self.transitions.push(LifecycleTransition { sequence, instance_id, from, to, reason });
        proof {
            self.lemma_view_facts();
            let nv = self@;
            let sv = set_state_spec(old_view, i as int, to, opt_wait_view(wait_reason), reason@);
            assert(nv.works =~= sv.works);
            assert(nv.transitions =~= sv.transitions);
        }
    }

    /// Returns instance `i`'s reservation to the budget.
    fn release(&mut self, i: usize) -> (r: Result<(), SchedulerContractError>)
        requires
            old(self).inner_wf(),
            struct_wf(old(self)@),
            alloc_wf(old(self)@),
            i < old(self).defs@.len(),
            old(self)@.works[i as int].state.spec_owns_resources(),
        ensures
            r is Ok,
            old(self)@.works[i as int].reservation.spec_fits_within(old(self)@.allocated),
            final(self).inner_wf(),
            final(self)@ == release_spec(old(self)@, i as int),
            final(self).defs@ == old(self).defs@,
            final(self).deps@ == old(self).deps@,
            final(self).dependents@ == old(self).dependents@,
    {
        proof {
            self.lemma_view_facts();
            let v = self@;
            let w = WorkView { state: LifecycleState::Blocked, ..v.works[i as int] };
            lemma_owned_sum_update(v.works, i as int, w);
            lemma_owned_sum_nonneg(v.works.update(i as int, w));
        }
        let reservation = self.defs[i].reservation;
        let allocated = match self.allocated.checked_sub(reservation) {
            Some(a) => a,
            None => return Err(SchedulerContractError::ResourceAccountingOverflow),
        };
        self.allocated = allocated;
        Ok(())
    }

    /// Marks computation done but deliberately keeps the full reservation:
    /// until `commit`, the memory and other resources backing staged output
    /// remain accounted.
    pub fn finish_computation(&mut self, instance_id: &str) -> (r: Result<(), SchedulerContractError>)
        requires
            old(self).wf(),
        ensures
            final(self).wf(),
            (final(self)@, err_view(r)) == finish_spec(old(self)@, instance_id@),
    {
        let id = owned(instance_id);
        proof {
            self.lemma_view_facts();
        }
        let i = match self.find(&id) {
            Some(i) => i,
            None => return Err(SchedulerContractError::UnknownInstance { instance_id: id }),
        };
        let state = self.states[i];
        if state != LifecycleState::Running {
            return Err(
                SchedulerContractError::InvalidTransition {
                    instance_id: id,
                    from: state,
                    operation: owned("finish_computation"),
                },
            );
        }
        proof {
            lemma_set_state_wf(
                self@,
                i as int,
                LifecycleState::Committing,
                None,
                TransitionReasonView::ComputationFinished,
            );
        }
        self.set_state(i, LifecycleState::Committing, None, TransitionReason::ComputationFinished);
        Ok(())
    }

    /// The ids of instance `c`'s producers that have not completed, in id
    /// order.
    fn pending_dependencies(&self, c: usize) -> (r: Vec<String>)
        requires
            self.inner_wf(),
            struct_wf(self@),
            c < self.defs@.len(),
        ensures
            strings_view(r@) == pending_ids(self@, self@.works[c as int].deps),
    {
        proof {
            self.lemma_view_facts();
        }
        let ghost ds = self@.works[c as int].deps;
        let mut out: Vec<String> = Vec::new();
        let mut k: usize = 0;
        proof {
            assert(ds.skip(0) =~= ds);
            assert(strings_view(out@) =~= Seq::<Seq<char>>::empty());
        }
        while k < self.deps[c].len()
            invariant
                self.inner_wf(),
                struct_wf(self@),
                c < self.defs@.len(),
                ds == self@.works[c as int].deps,
                ds == indices_view(self.deps@[c as int]@),
                k <= ds.len(),
                pending_ids(self@, ds) == strings_view(out@) + pending_ids(self@, ds.skip(k as int)),
            decreases ds.len() - k,
        {
            proof {
                self.lemma_view_facts();
                assert(ds.skip(k as int).drop_first() =~= ds.skip(k + 1));
                assert(ds.skip(k as int)[0] == ds[k as int]);
            }
            let d = self.deps[c][k];
            proof {
                assert(d as int == ds[k as int]);
                assert(0 <= ds[k as int] < self@.works.len());
            }
            if self.states[d] != LifecycleState::Completed {
                let name = self.defs[d].instance_id.clone();
                let ghost before = out@;
                out.push(name);
                proof {
                    assert(strings_view(out@) =~= strings_view(before) + seq![self@.works[d as int].id]);
                }
            }
            k = k + 1;
        }
        proof {
            assert(ds.skip(ds.len() as int) =~= Seq::<int>::empty());
            assert(strings_view(out@) + Seq::<Seq<char>>::empty() =~= strings_view(out@));
        }
        out
    }

    /// Lets every consumer of the just-completed instance `p` that is
    /// blocked on dependencies either become ready or narrow its pending
    /// list.
    fn refresh_dependency_waiters(&mut self, p: usize)
        requires
            old(self).inner_wf(),
            view_wf(old(self)@),
            p < old(self).defs@.len(),
        ensures
            final(self).inner_wf(),
            view_wf(final(self)@),
            final(self)@ == refresh_spec(old(self)@, old(self)@.works[p as int].dependents),
    {
        proof {
            self.lemma_view_facts();
        }
        let ghost target = refresh_spec(self@, self@.works[p as int].dependents);
        let consumers = copy_indices(&self.dependents[p]);
        let ghost cons = indices_view(consumers@);
        let mut idx: usize = 0;
        proof {
            assert(cons.skip(0) =~= cons);
        }
        while idx < consumers.len()
            invariant
                self.inner_wf(),
                view_wf(self@),
                cons == indices_view(consumers@),
                idx <= consumers@.len(),
                forall|k: int| 0 <= k < cons.len() ==> 0 <= #[trigger] cons[k] < self@.works.len(),
                refresh_spec(self@, cons.skip(idx as int)) == target,
            decreases consumers@.len() - idx,
        {
            proof {
                self.lemma_view_facts();
                assert(cons.skip(idx as int).drop_first() =~= cons.skip(idx + 1));
                assert(cons.skip(idx as int)[0] == cons[idx as int]);
                assert(0 <= cons[idx as int] < self@.works.len());
                assert(self.transitions@.len() <= usize::MAX);
            }
            let c = consumers[idx];
            let blocked_on_dependencies = self.states[c] == LifecycleState::Blocked && match &self.waits[c] {
                Some(WaitReason::Dependencies { .. }) => true,
                _ => false,
            };
            if blocked_on_dependencies {
                let pending = self.pending_dependencies(c);
                if pending.len() == 0 {
                    proof {
                        lemma_pending_empty(self@, self@.works[c as int].deps);
                        lemma_set_state_wf(
                            self@,
                            c as int,
                            LifecycleState::Ready,
                            None,
                            TransitionReasonView::DependenciesSatisfied,
                        );
                    }
                    self.set_state(c, LifecycleState::Ready, None, TransitionReason::DependenciesSatisfied);
                } else {
                    let ghost before = self@;
                    let ghost pv = strings_view(pending@);
                    self.waits.set(c, Some(WaitReason::Dependencies { pending }));
                    proof {
                        self.lemma_view_facts();
                        let nw = WorkView {
                            wait: Some(WaitReasonView::Dependencies { pending: pv }),
                            ..before.works[c as int]
                        };
                        assert(self@.works =~= before.works.update(c as int, nw));
                        lemma_owned_sum_update(before.works, c as int, nw);
                        assert(struct_wf(self@)) by {
                            assert forall|a: int| 0 <= a < self@.works.len() implies
                                (#[trigger] self@.works[a]).id == before.works[a].id
                                && self@.works[a].deps == before.works[a].deps
                                && self@.works[a].dependents == before.works[a].dependents by {}
                        }
                        assert(deps_wf(self@)) by {
                            assert forall|a: int, k: int| 0 <= a < self@.works.len() && 0 <= k < self@.works[a].deps.len()
                                && needs_completed_deps(self@.works[a].state, self@.works[a].wait)
                                implies (#[trigger] self@.works[self@.works[a].deps[k]]).state is Completed by {
                                assert(a != c);
                                assert(self@.works[a] == before.works[a]);
                            }
                        }
                        assert(seq_wf(self@));
                    }
                }
            }
            idx = idx + 1;
        }
        proof {
            assert(cons.skip(cons.len() as int) =~= Seq::<int>::empty());
        }
    }

    /// Publishes a committing instance: releases its reservation, marks it
    /// completed and lets its waiting consumers advance.
    pub fn commit(&mut self, instance_id: &str) -> (r: Result<(), SchedulerContractError>)
        requires
            old(self).wf(),
        ensures
            final(self).wf(),
            (final(self)@, err_view(r)) == commit_spec(old(self)@, instance_id@),
    {
        let id = owned(instance_id);
        proof {
            self.lemma_view_facts();
        }
        let i = match self.find(&id) {
            Some(i) => i,
            None => return Err(SchedulerContractError::UnknownInstance { instance_id: id }),
        };
        let state = self.states[i];
        if state != LifecycleState::Committing {
            return Err(
                SchedulerContractError::InvalidTransition {
                    instance_id: id,
                    from: state,
                    operation: owned("commit"),
                },
            );
        }
        let ghost v0 = self@;
        match self.release(i) {
            Ok(()) => {},
            Err(e) => return Err(e),
        }
        proof {
            self.lemma_view_facts();
            assert(self.transitions@.len() <= usize::MAX);
            lemma_set_state_wf(
                self@,
                i as int,
                LifecycleState::Completed,
                None,
                TransitionReasonView::CommitSucceeded,
            );
        }
        self.set_state(i, LifecycleState::Completed, None, TransitionReason::CommitSucceeded);
        proof {
            self.lemma_view_facts();
            assert(owned_part(v0.works[i as int]) == amount_sum_of(v0.works[i as int].reservation));
            assert(owned_sum(self@.works).cpu == owned_sum(v0.works).cpu - v0.works[i as int].reservation.cpu_slots);
            assert(alloc_wf(self@));
        }
        self.refresh_dependency_waiters(i);
        Ok(())
    }

    /// Cancels every consumer reachable from instance `root_index` through
    /// work that is not already terminal.
    fn cancel_descendants(&mut self, root_index: usize, root: &String, producer_failed: bool)
        requires
            old(self).inner_wf(),
            core_wf(old(self)@),
            log_wf(old(self)@),
            walk_wf(old(self)@, old(self)@.works[root_index as int].dependents),
            root_index < old(self).defs@.len(),
            old(self)@.works[root_index as int].state is Failed
                || old(self)@.works[root_index as int].state is Cancelled,
        ensures
            final(self).inner_wf(),
            view_wf(final(self)@),
            final(self)@ == cancel_walk(
                old(self)@,
                root@,
                producer_failed,
                old(self)@.works[root_index as int].dependents,
            ),
    {
        proof {
            self.lemma_view_facts();
        }
        let ghost target = cancel_walk(self@, root@, producer_failed, self@.works[root_index as int].dependents);
        let mut queue = copy_indices(&self.dependents[root_index]);
        proof {
            assert forall|k: int| #![trigger queue@[k]] 0 <= k < queue@.len() implies {
                &&& 0 <= queue@[k] < self@.works.len()
                &&& exists|p: int| #![trigger self@.works[p]] 0 <= p < self@.works.len()
                    && (self@.works[p].state is Failed || self@.works[p].state is Cancelled)
                    && self@.works[p].dependents.contains(queue@[k] as int)
            } by {
                assert(self@.works[root_index as int].dependents[k] == queue@[k] as int);
                assert(self@.works[root_index as int].dependents.contains(queue@[k] as int));
            }
            assert(indices_view(queue@) == self@.works[root_index as int].dependents);
        }
        while queue.len() > 0
            invariant
                self.inner_wf(),
                core_wf(self@),
                log_wf(self@),
                walk_wf(self@, indices_view(queue@)),
                forall|k: int| #![trigger queue@[k]] 0 <= k < queue@.len() ==> {
                    &&& 0 <= queue@[k] < self@.works.len()
                    &&& exists|p: int| #![trigger self@.works[p]] 0 <= p < self@.works.len()
                        && (self@.works[p].state is Failed || self@.works[p].state is Cancelled)
                        && self@.works[p].dependents.contains(queue@[k] as int)
                },
                cancel_walk(self@, root@, producer_failed, indices_view(queue@)) == target,
            decreases nonterminal_count(self@.works), queue@.len(),
        {
            proof {
                self.lemma_view_facts();
            }
            let ghost before = self@;
            let ghost q0 = queue@;
            let id = queue.pop().unwrap();
            proof {
                assert(indices_view(q0).last() == id as int);
                assert(indices_view(q0).drop_last() =~= indices_view(queue@));
                assert(q0[q0.len() - 1] == id);
            }
            let state = self.states[id];
            if state.is_terminal() {
                proof {
                    lemma_walk_skip(before, indices_view(q0));
                }
                continue;
            }
            let ghost parent = choose|p: int| #![trigger before.works[p]] 0 <= p < before.works.len()
                && (before.works[p].state is Failed || before.works[p].state is Cancelled)
                && before.works[p].dependents.contains(id as int);
            proof {
                assert(before.works[id as int].deps.contains(parent));
                let k = choose|k: int| 0 <= k < before.works[id as int].deps.len()
                    && before.works[id as int].deps[k] == parent;
                assert(!needs_completed_deps(before.works[id as int].state, before.works[id as int].wait));
            }
            let reason = if producer_failed {
                TransitionReason::ProducerFailed { producer: root.clone() }
            } else {
                TransitionReason::UpstreamCancelled { upstream: root.clone() }
            };
            proof {
                lemma_set_state_wf(before, id as int, LifecycleState::Cancelled, None, reason@);
                lemma_walk_step(before, indices_view(q0), reason@);
            }
            self.set_state(id, LifecycleState::Cancelled, None, reason);
            proof {
                self.lemma_view_facts();
                assert(alloc_wf(self@));
            }
            let ghost mid = self@;
            let ghost q1 = queue@;
            let consumers = copy_indices(&self.dependents[id]);
            let mut k: usize = 0;
            while k < consumers.len()
                invariant
                    self@ == mid,
                    self.inner_wf(),
                    id < self.defs@.len(),
                    consumers@ == self.dependents@[id as int]@,
                    k <= consumers@.len(),
                    queue@ == q1 + consumers@.take(k as int),
                decreases consumers@.len() - k,
            {
                queue.push(consumers[k]);
                proof {
                    assert(consumers@.take(k + 1) =~= consumers@.take(k as int).push(consumers@[k as int]));
                }
                k = k + 1;
            }
            proof {
                self.lemma_view_facts();
                assert(consumers@.take(consumers@.len() as int) =~= consumers@);
                assert(indices_view(queue@) =~= indices_view(q1) + mid.works[id as int].dependents);
                assert(indices_view(q1) == indices_view(q0).drop_last());
                assert forall|j: int| #![trigger queue@[j]] 0 <= j < queue@.len() implies {
                    &&& 0 <= queue@[j] < self@.works.len()
                    &&& exists|p: int| #![trigger self@.works[p]] 0 <= p < self@.works.len()
                        && (self@.works[p].state is Failed || self@.works[p].state is Cancelled)
                        && self@.works[p].dependents.contains(queue@[j] as int)
                } by {
                    if j < q1.len() {
                        assert(queue@[j] == q0[j]);
                        let p = choose|p: int| #![trigger before.works[p]] 0 <= p < before.works.len()
                            && (before.works[p].state is Failed || before.works[p].state is Cancelled)
                            && before.works[p].dependents.contains(q0[j] as int);
                        assert(p != id);
                        assert(self@.works[p] == before.works[p]);
                    } else {
                        let m = j - q1.len();
                        assert(queue@[j] == consumers@[m]);
                        assert(mid.works[id as int].dependents[m] == consumers@[m] as int);
                        assert(self@.works[id as int].dependents.contains(queue@[j] as int));
                    }
                }
            }
        }
        proof {
            assert(indices_view(queue@) =~= Seq::<int>::empty());
        }
    }

    /// Marks running or committing work failed, releases its reservation,
    /// and cancels every consumer downstream of it.
    pub fn fail(&mut self, instance_id: &str, detail: &str) -> (r: Result<(), SchedulerContractError>)
        requires
            old(self).wf(),
        ensures
            final(self).wf(),
            (final(self)@, err_view(r)) == fail_spec(old(self)@, instance_id@, detail@),
    {
        let id = owned(instance_id);
        proof {
            self.lemma_view_facts();
        }
        let i = match self.find(&id) {
            Some(i) => i,
            None => return Err(SchedulerContractError::UnknownInstance { instance_id: id }),
        };
        let state = self.states[i];
        if !state.owns_resources() {
            return Err(
                SchedulerContractError::InvalidTransition {
                    instance_id: id,
                    from: state,
                    operation: owned("fail"),
                },
            );
        }
        let ghost v0 = self@;
        match self.release(i) {
            Ok(()) => {},
            Err(e) => return Err(e),
        }
        let reason = TransitionReason::ExecutionFailed { detail: owned(detail) };
        proof {
            self.lemma_view_facts();
            lemma_set_state_wf(self@, i as int, LifecycleState::Failed, None, reason@);
            lemma_walk_start(self@, i as int, LifecycleState::Failed, None, reason@);
        }
        self.set_state(i, LifecycleState::Failed, None, reason);
        proof {
            self.lemma_view_facts();
            assert(owned_part(v0.works[i as int]) == amount_sum_of(v0.works[i as int].reservation));
            assert(alloc_wf(self@));
        }
        self.cancel_descendants(i, &id, true);
        Ok(())
    }

    /// Cancels the requested consumer and its consumers. Producers and
    /// independent siblings are intentionally untouched.
    pub fn cancel(&mut self, instance_id: &str, detail: &str) -> (r: Result<(), SchedulerContractError>)
        requires
            old(self).wf(),
        ensures
            final(self).wf(),
            (final(self)@, err_view(r)) == cancel_spec(old(self)@, instance_id@, detail@),
    {
        let id = owned(instance_id);
        proof {
            self.lemma_view_facts();
        }
        let i = match self.find(&id) {
            Some(i) => i,
            None => return Err(SchedulerContractError::UnknownInstance { instance_id: id }),
        };
        let state = self.states[i];
        if state.is_terminal() {
            return Err(
                SchedulerContractError::InvalidTransition {
                    instance_id: id,
                    from: state,
                    operation: owned("cancel"),
                },
            );
        }
        let ghost v0 = self@;
        if state.owns_resources() {
            match self.release(i) {
                Ok(()) => {},
                Err(e) => return Err(e),
            }
        }
        let reason = TransitionReason::ExplicitCancellation { detail: owned(detail) };
        proof {
            self.lemma_view_facts();
            lemma_set_state_wf(self@, i as int, LifecycleState::Cancelled, None, reason@);
            lemma_walk_start(self@, i as int, LifecycleState::Cancelled, None, reason@);
        }
        self.set_state(i, LifecycleState::Cancelled, None, reason);
        proof {
            self.lemma_view_facts();
            if state.spec_owns_resources() {
                assert(owned_part(v0.works[i as int]) == amount_sum_of(v0.works[i as int].reservation));
            }
            assert(alloc_wf(self@));
        }
        self.cancel_descendants(i, &id, false);
        Ok(())
    }

    /// Admits every currently-ready instance that fits, without head-of-line
    /// blocking: one oversized ready sibling cannot hide a smaller independent
    /// sibling that the remaining global budget can run.
    pub fn admit_ready(&mut self) -> (r: Result<Vec<String>, SchedulerContractError>)
        requires
            old(self).wf(),
        ensures
            final(self).wf(),
            r is Ok,
            r matches Ok(ids) ==> (final(self)@, strings_view(ids@)) == admit_from(old(self)@, 0, Seq::empty()),
            r matches Ok(ids) ==> strictly_sorted(strings_view(ids@)),
    {
        let ghost target = admit_from(self@, 0, Seq::empty());
        proof {
            lemma_admit_sorted(self@, 0, Seq::empty());
        }
        let mut admitted: Vec<String> = Vec::new();
        let mut i: usize = 0;
        proof {
            assert(strings_view(admitted@) =~= Seq::<Seq<char>>::empty());
        }
        while i < self.defs.len()
            invariant
                self.inner_wf(),
                view_wf(self@),
                i <= self.defs@.len(),
                admit_from(self@, i as int, strings_view(admitted@)) == target,
            decreases self.defs@.len() - i,
        {
            proof {
                self.lemma_view_facts();
            }
            let ghost v0 = self@;
            let state = self.states[i];
            let resource_wait = state == LifecycleState::Blocked && match &self.waits[i] {
                Some(WaitReason::Resources { .. }) => true,
                _ => false,
            };
            if state != LifecycleState::Ready && !resource_wait {
                i = i + 1;
                continue;
            }
            let reservation = self.defs[i].reservation;
            let available = match self.budget.checked_sub(self.allocated) {
                Some(a) => a,
                None => return Err(SchedulerContractError::ResourceAccountingOverflow),
            };
            if reservation.fits_within(available) {
                if resource_wait {
                    proof {
                        lemma_set_state_wf(
                            self@,
                            i as int,
                            LifecycleState::Ready,
                            None,
                            TransitionReasonView::ResourcesAvailable,
                        );
                    }
                    self.set_state(i, LifecycleState::Ready, None, TransitionReason::ResourcesAvailable);
                    proof {
                        self.lemma_view_facts();
                    }
                }
                let ghost v1 = self@;
                self.allocated = match self.allocated.checked_add(reservation) {
                    Some(a) => a,
                    None => return Err(SchedulerContractError::ResourceAccountingOverflow),
                };
                proof {
                    self.lemma_view_facts();
                    lemma_set_state_wf(
                        self@,
                        i as int,
                        LifecycleState::Running,
                        None,
                        TransitionReasonView::Admitted,
                    );
                }
                self.set_state(i, LifecycleState::Running, None, TransitionReason::Admitted);
                let name = self.defs[i].instance_id.clone();
                let ghost before_push = admitted@;
                admitted.push(name);
                proof {
                    self.lemma_view_facts();
                    assert(alloc_wf(self@));
                    assert(strings_view(admitted@) =~= strings_view(before_push).push(v0.works[i as int].id));
                }
            } else {
                let deficit = ResourceDeficit::between(reservation, available);
                let same = match &self.waits[i] {
                    Some(WaitReason::Resources { deficit: current }) => *current == deficit,
                    _ => false,
                };
                let ghost rv = WaitReasonView::Resources { deficit: deficit };
                proof {
                    assert(same == (v0.works[i as int].wait == Some(rv)));
                }
                if !same {
                    let wait = WaitReason::Resources { deficit };
                    let reason = TransitionReason::Waiting(WaitReason::Resources { deficit });
                    proof {
                        lemma_set_state_wf(
                            self@,
                            i as int,
                            LifecycleState::Blocked,
                            Some(rv),
                            reason@,
                        );
                    }
                    self.set_state(i, LifecycleState::Blocked, Some(wait), reason);
                    proof {
                        self.lemma_view_facts();
                        assert(alloc_wf(self@));
                    }
                }
            }
            i = i + 1;
        }
        Ok(admitted)
    }

    /// The lifecycle state of the instance named `instance_id`, if any.
    pub fn state(&self, instance_id: &str) -> (r: Option<LifecycleState>)
        requires
            self.wf(),
        ensures
            r == (match find_spec(self@, instance_id@) {
                Some(i) => Some(self@.works[i].state),
                None => None::<LifecycleState>,
            }),
    {
        let id = owned(instance_id);
        proof {
            self.lemma_view_facts();
        }
        match self.find(&id) {
            Some(i) => Some(self.states[i]),
            None => None,
        }
    }

    /// Why the instance named `instance_id` is waiting, if it is.
    pub fn wait_reason(&self, instance_id: &str) -> (r: Option<&WaitReason>)
        requires
            self.wf(),
        ensures
            (match r { Some(w) => Some(w@), None => None::<WaitReasonView> }) == (match find_spec(self@, instance_id@) {
                Some(i) => self@.works[i].wait,
                None => None::<WaitReasonView>,
            }),
    {
        let id = owned(instance_id);
        proof {
            self.lemma_view_facts();
        }
        match self.find(&id) {
            Some(i) => match &self.waits[i] {
                Some(w) => Some(w),
                None => None,
            },
            None => None,
        }
    }

    /// The total reservation currently owned by running and committing work.
    pub fn allocated(&self) -> (r: ResourceAmount)
        ensures
            r == self@.allocated,
    {
        self.allocated
    }

    /// Every recorded transition, in order.
    pub fn transitions(&self) -> (r: &[LifecycleTransition])
        ensures
            r@.map_values(|t: LifecycleTransition| t@) == self@.transitions,
    {
        self.transitions.as_slice()
    }
}


// ---------------------------------------------------------------------
// Laws
// ---------------------------------------------------------------------

/// `path` follows consumer edges, each step from an instance to one of
/// its consumers.
pub open spec fn consumer_path(v: SchedulerView, path: Seq<int>) -> bool {
    &&& path.len() >= 1
    &&& forall|m: int| 0 <= m < path.len() ==> 0 <= #[trigger] path[m] < v.works.len()
    &&& forall|m: int| 0 <= m < path.len() - 1 ==> v.works[#[trigger] path[m]].dependents.contains(path[m + 1])
}

/// Instance `to` consumes instance `from`, directly or through others (or
/// is `from` itself).
pub open spec fn downstream(v: SchedulerView, from: int, to: int) -> bool {
    exists|path: Seq<int>| #[trigger] consumer_path(v, path) && path[0] == from && path.last() == to
}

proof fn lemma_stopped_along(v: SchedulerView, path: Seq<int>)
    requires
        view_wf(v),
        consumer_path(v, path),
        stopped(v.works[path[0]].state),
    ensures
        stopped(v.works[path.last()].state),
    decreases path.len(),
{
    if path.len() > 1 {
        let pre = path.drop_last();
        assert(consumer_path(v, pre)) by {
            assert forall|m: int| 0 <= m < pre.len() - 1 implies v.works[#[trigger] pre[m]].dependents.contains(pre[m + 1]) by {
                assert(pre[m] == path[m] && pre[m + 1] == path[m + 1]);
                assert(v.works[path[m]].dependents.contains(path[m + 1]));
            }
        }
        lemma_stopped_along(v, pre);
        let p = path[path.len() - 2];
        let c = path.last();
        assert(v.works[p].dependents.contains(c));
        let k = choose|k: int| 0 <= k < v.works[p].dependents.len() && v.works[p].dependents[k] == c;
        assert(v.works[v.works[p].dependents[k]].state.spec_is_terminal() || Seq::<int>::empty().contains(c));
        assert(v.works[c].deps.contains(p));
        let q = choose|q: int| 0 <= q < v.works[c].deps.len() && v.works[c].deps[q] == p;
        if v.works[c].state is Completed {
            assert(needs_completed_deps(v.works[c].state, v.works[c].wait));
            assert(v.works[v.works[c].deps[q]].state is Completed);
        }
    }
}

/// Every scheduler keeps its instances in strictly ascending id order,
/// each with producer and consumer lists that are ascending, in range and
/// mirror each other, so a position in the view names one instance for
/// good.
pub proof fn law_instances_in_ascending_id_order(s: &ResourceScheduler)
    requires
        s.wf(),
    ensures
        struct_wf(s@),
{
}

/// The reservations of running and committing work are exactly what is
/// allocated, and the allocation never exceeds the budget.
pub proof fn law_allocation_within_budget(s: &ResourceScheduler)
    requires
        s.wf(),
    ensures
        s@.allocated.spec_fits_within(s@.budget),
        owned_sum(s@.works) == amount_sum_of(s@.allocated),
{
}

/// Work that is ready, running, committing or completed has every producer
/// completed: a consumer never starts before its producers have committed.
pub proof fn law_consumers_wait_for_producers(s: &ResourceScheduler, i: int, k: int)
    requires
        s.wf(),
        0 <= i < s@.works.len(),
        0 <= k < s@.works[i].deps.len(),
        s@.works[i].state is Ready || s@.works[i].state is Running || s@.works[i].state is Committing
            || s@.works[i].state is Completed,
    ensures
        s@.works[s@.works[i].deps[k]].state is Completed,
{
    assert(needs_completed_deps(s@.works[i].state, s@.works[i].wait));
}

/// Whatever consumes failed or cancelled work, directly or through other
/// instances, has itself failed or been cancelled.
pub proof fn law_stopped_work_stops_consumers(s: &ResourceScheduler, i: int, j: int)
    requires
        s.wf(),
        0 <= i < s@.works.len(),
        stopped(s@.works[i].state),
        downstream(s@, i, j),
    ensures
        stopped(s@.works[j].state),
{
    let path = choose|path: Seq<int>| #[trigger] consumer_path(s@, path) && path[0] == i && path.last() == j;
    lemma_stopped_along(s@, path);
}

/// The lifecycle log is a chain: every transition starts from the state
/// its instance was last recorded in (from nothing, its first time), and
/// every instance is in the state last recorded for it.
pub proof fn law_lifecycle_log_is_a_chain(s: &ResourceScheduler)
    requires
        s.wf(),
    ensures
        log_wf(s@),
{
}

/// `new` holds all of `old` at its start.
pub open spec fn log_extends(new: Seq<TransitionView>, old: Seq<TransitionView>) -> bool {
    old.len() <= new.len() && new.take(old.len() as int) == old
}

proof fn lemma_set_state_extends(v: SchedulerView, i: int, to: LifecycleState, wait: Option<WaitReasonView>, reason: TransitionReasonView)
    ensures
        log_extends(set_state_spec(v, i, to, wait, reason).transitions, v.transitions),
{
    let nv = set_state_spec(v, i, to, wait, reason);
    assert(nv.transitions.take(v.transitions.len() as int) =~= v.transitions);
}

proof fn lemma_extends_trans(a: Seq<TransitionView>, b: Seq<TransitionView>, c: Seq<TransitionView>)
    requires
        log_extends(a, b),
        log_extends(b, c),
    ensures
        log_extends(a, c),
{
    assert(a.take(c.len() as int) =~= b.take(c.len() as int));
}

proof fn lemma_refresh_extends(v: SchedulerView, cons: Seq<int>)
    ensures
        log_extends(refresh_spec(v, cons).transitions, v.transitions),
    decreases cons.len(),
{
    if cons.len() > 0 {
        let c = cons[0];
        let w = v.works[c];
        let v1 = if w.state is Blocked && w.wait matches Some(WaitReasonView::Dependencies { .. }) {
            let pending = pending_ids(v, w.deps);
            if pending.len() == 0 {
                lemma_set_state_extends(v, c, LifecycleState::Ready, None, TransitionReasonView::DependenciesSatisfied);
                set_state_spec(v, c, LifecycleState::Ready, None, TransitionReasonView::DependenciesSatisfied)
            } else {
                let u = SchedulerView {
                    works: v.works.update(
                        c,
                        WorkView { wait: Some(WaitReasonView::Dependencies { pending: pending }), ..w },
                    ),
                    ..v
                };
                assert(u.transitions.take(v.transitions.len() as int) =~= v.transitions);
                u
            }
        } else {
            assert(v.transitions.take(v.transitions.len() as int) =~= v.transitions);
            v
        };
        lemma_refresh_extends(v1, cons.drop_first());
        lemma_extends_trans(refresh_spec(v1, cons.drop_first()).transitions, v1.transitions, v.transitions);
    } else {
        assert(v.transitions.take(v.transitions.len() as int) =~= v.transitions);
    }
}

proof fn lemma_cancel_walk_extends(v: SchedulerView, root: Seq<char>, producer_failed: bool, stack: Seq<int>)
    ensures
        log_extends(cancel_walk(v, root, producer_failed, stack).transitions, v.transitions),
    decreases nonterminal_count(v.works), stack.len(),
{
    if stack.len() == 0 {
        assert(v.transitions.take(v.transitions.len() as int) =~= v.transitions);
    } else {
        let id = stack.last();
        let rest = stack.drop_last();
        if !(0 <= id < v.works.len()) || v.works[id].state.spec_is_terminal() {
            lemma_cancel_walk_extends(v, root, producer_failed, rest);
        } else {
            let reason = if producer_failed {
                TransitionReasonView::ProducerFailed { producer: root }
            } else {
                TransitionReasonView::UpstreamCancelled { upstream: root }
            };
            let v1 = set_state_spec(v, id, LifecycleState::Cancelled, None, reason);
            lemma_nonterminal_count_update(
                v.works,
                id,
                WorkView { state: LifecycleState::Cancelled, wait: None, ..v.works[id] },
            );
            lemma_set_state_extends(v, id, LifecycleState::Cancelled, None, reason);
            lemma_cancel_walk_extends(v1, root, producer_failed, rest + v.works[id].dependents);
            lemma_extends_trans(
                cancel_walk(v1, root, producer_failed, rest + v.works[id].dependents).transitions,
                v1.transitions,
                v.transitions,
            );
        }
    }
}

proof fn lemma_admit_extends(v: SchedulerView, i: int, admitted: Seq<Seq<char>>)
    ensures
        log_extends(admit_from(v, i, admitted).0.transitions, v.transitions),
    decreases v.works.len() - i,
{
    assert(v.transitions.take(v.transitions.len() as int) =~= v.transitions);
    if 0 <= i < v.works.len() {
        let w = v.works[i];
        let resource_wait = w.state is Blocked && w.wait matches Some(WaitReasonView::Resources { .. });
        if !(w.state is Ready) && !resource_wait {
            lemma_admit_extends(v, i + 1, admitted);
        } else {
            let available = v.budget.spec_minus(v.allocated);
            if w.reservation.spec_fits_within(available) {
                let v1 = if resource_wait {
                    lemma_set_state_extends(v, i, LifecycleState::Ready, None, TransitionReasonView::ResourcesAvailable);
                    set_state_spec(v, i, LifecycleState::Ready, None, TransitionReasonView::ResourcesAvailable)
                } else {
                    v
                };
                let v2 = SchedulerView { allocated: v1.allocated.spec_plus(w.reservation), ..v1 };
                let v3 = set_state_spec(v2, i, LifecycleState::Running, None, TransitionReasonView::Admitted);
                lemma_set_state_extends(v2, i, LifecycleState::Running, None, TransitionReasonView::Admitted);
                lemma_extends_trans(v3.transitions, v1.transitions, v.transitions);
                lemma_admit_extends(v3, i + 1, admitted.push(w.id));
                lemma_extends_trans(admit_from(v3, i + 1, admitted.push(w.id)).0.transitions, v3.transitions, v.transitions);
            } else {
                let reason = WaitReasonView::Resources { deficit: spec_deficit(w.reservation, available) };
                let v1 = if w.wait != Some(reason) {
                    lemma_set_state_extends(v, i, LifecycleState::Blocked, Some(reason), TransitionReasonView::Waiting(reason));
                    set_state_spec(v, i, LifecycleState::Blocked, Some(reason), TransitionReasonView::Waiting(reason))
                } else {
                    v
                };
                lemma_admit_extends(v1, i + 1, admitted);
                lemma_extends_trans(admit_from(v1, i + 1, admitted).0.transitions, v1.transitions, v.transitions);
            }
        }
    }
}

/// The lifecycle log only grows: finishing, committing, failing and
/// cancelling, and admission, keep every recorded transition and append
/// after them, and a refused operation changes nothing at all.
pub proof fn law_log_only_grows(v: SchedulerView, id: Seq<char>, detail: Seq<char>)
    ensures
        log_extends(finish_spec(v, id).0.transitions, v.transitions),
        log_extends(commit_spec(v, id).0.transitions, v.transitions),
        log_extends(fail_spec(v, id, detail).0.transitions, v.transitions),
        log_extends(cancel_spec(v, id, detail).0.transitions, v.transitions),
        log_extends(admit_from(v, 0, Seq::empty()).0.transitions, v.transitions),
        finish_spec(v, id).1 is Err ==> finish_spec(v, id).0 == v,
        commit_spec(v, id).1 is Err ==> commit_spec(v, id).0 == v,
        fail_spec(v, id, detail).1 is Err ==> fail_spec(v, id, detail).0 == v,
        cancel_spec(v, id, detail).1 is Err ==> cancel_spec(v, id, detail).0 == v,
{
    assert(v.transitions.take(v.transitions.len() as int) =~= v.transitions);
    lemma_admit_extends(v, 0, Seq::empty());
    match find_spec(v, id) {
        None => {},
        Some(i) => {
            lemma_set_state_extends(v, i, LifecycleState::Committing, None, TransitionReasonView::ComputationFinished);
            let r = release_spec(v, i);
            assert(r.transitions == v.transitions);
            lemma_set_state_extends(r, i, LifecycleState::Completed, None, TransitionReasonView::CommitSucceeded);
            let v1 = set_state_spec(r, i, LifecycleState::Completed, None, TransitionReasonView::CommitSucceeded);
            lemma_refresh_extends(v1, v.works[i].dependents);
            lemma_extends_trans(refresh_spec(v1, v.works[i].dependents).transitions, v1.transitions, v.transitions);
            let f1 = set_state_spec(r, i, LifecycleState::Failed, None, TransitionReasonView::ExecutionFailed { detail: detail });
            lemma_set_state_extends(r, i, LifecycleState::Failed, None, TransitionReasonView::ExecutionFailed { detail: detail });
            lemma_cancel_walk_extends(f1, id, true, v.works[i].dependents);
            lemma_extends_trans(cancel_walk(f1, id, true, v.works[i].dependents).transitions, f1.transitions, v.transitions);
            let v0 = if v.works[i].state.spec_owns_resources() { r } else { v };
            let c1 = set_state_spec(v0, i, LifecycleState::Cancelled, None, TransitionReasonView::ExplicitCancellation { detail: detail });
            lemma_set_state_extends(v0, i, LifecycleState::Cancelled, None, TransitionReasonView::ExplicitCancellation { detail: detail });
            lemma_cancel_walk_extends(c1, id, false, v.works[i].dependents);
            lemma_extends_trans(cancel_walk(c1, id, false, v.works[i].dependents).transitions, c1.transitions, v.transitions);
        },
    }
}

/// Transitions are numbered 0, 1, 2, ... in the order they were recorded.
pub proof fn law_transitions_numbered(s: &ResourceScheduler, k: int)
    requires
        s.wf(),
        0 <= k < s@.transitions.len(),
    ensures
        s@.transitions[k].sequence == k,
{
}

/// Only blocked work records why it waits.
pub proof fn law_only_blocked_work_waits(s: &ResourceScheduler, i: int)
    requires
        s.wf(),
        0 <= i < s@.works.len(),
        s@.works[i].wait is Some,
    ensures
        s@.works[i].state is Blocked,
{
}

proof fn lemma_same_edges_same_paths(v: SchedulerView, w: SchedulerView, path: Seq<int>)
    requires
        v.works.len() == w.works.len(),
        forall|x: int| 0 <= x < v.works.len() ==> (#[trigger] v.works[x]).dependents == w.works[x].dependents,
    ensures
        consumer_path(v, path) <==> consumer_path(w, path),
{
    if consumer_path(v, path) {
        assert forall|m: int| 0 <= m < path.len() - 1 implies w.works[#[trigger] path[m]].dependents.contains(path[m + 1]) by {
            assert(v.works[path[m]].dependents.contains(path[m + 1]));
        }
    }
    if consumer_path(w, path) {
        assert forall|m: int| 0 <= m < path.len() - 1 implies v.works[#[trigger] path[m]].dependents.contains(path[m + 1]) by {
            assert(w.works[path[m]].dependents.contains(path[m + 1]));
        }
    }
}

/// Whatever is downstream of a consumer of `id` is downstream of `id`.
proof fn lemma_downstream_step(v: SchedulerView, id: int, d: int, j: int)
    requires
        0 <= id < v.works.len(),
        v.works[id].dependents.contains(d),
        downstream(v, d, j),
    ensures
        downstream(v, id, j),
{
    let path = choose|path: Seq<int>| #[trigger] consumer_path(v, path) && path[0] == d && path.last() == j;
    let p2 = seq![id] + path;
    assert forall|m: int| 0 <= m < p2.len() implies 0 <= #[trigger] p2[m] < v.works.len() by {
        if m > 0 {
            assert(p2[m] == path[m - 1]);
        }
    }
    assert forall|m: int| 0 <= m < p2.len() - 1 implies v.works[#[trigger] p2[m]].dependents.contains(p2[m + 1]) by {
        if m > 0 {
            assert(p2[m] == path[m - 1] && p2[m + 1] == path[m]);
            assert(v.works[path[m - 1]].dependents.contains(path[m]));
        }
    }
    assert(consumer_path(v, p2));
}

proof fn lemma_downstream_self(v: SchedulerView, id: int)
    requires
        0 <= id < v.works.len(),
    ensures
        downstream(v, id, id),
{
    assert(consumer_path(v, seq![id]));
}

/// The cancellation walk never touches an instance that no instance on its
/// stack reaches, nor any instance that had already ended.
proof fn lemma_walk_untouched(v: SchedulerView, root: Seq<char>, producer_failed: bool, stack: Seq<int>, j: int)
    requires
        0 <= j < v.works.len(),
        v.works[j].state.spec_is_terminal() || forall|q: int| 0 <= q < stack.len() ==> !downstream(v, #[trigger] stack[q], j),
    ensures
        cancel_walk(v, root, producer_failed, stack).works[j] == v.works[j],
    decreases nonterminal_count(v.works), stack.len(),
{
    if stack.len() > 0 {
        let id = stack.last();
        let rest = stack.drop_last();
        assert forall|q: int| 0 <= q < rest.len() implies #[trigger] rest[q] == stack[q] by {}
        if !(0 <= id < v.works.len()) || v.works[id].state.spec_is_terminal() {
            lemma_walk_untouched(v, root, producer_failed, rest, j);
        } else {
            let reason = if producer_failed {
                TransitionReasonView::ProducerFailed { producer: root }
            } else {
                TransitionReasonView::UpstreamCancelled { upstream: root }
            };
            let v1 = set_state_spec(v, id, LifecycleState::Cancelled, None, reason);
            lemma_nonterminal_count_update(
                v.works,
                id,
                WorkView { state: LifecycleState::Cancelled, wait: None, ..v.works[id] },
            );
            let ns = rest + v.works[id].dependents;
            if !v.works[j].state.spec_is_terminal() {
                assert(!downstream(v, stack[stack.len() - 1], j));
                lemma_downstream_self(v, id);
            }
            assert(j != id);
            assert(v1.works[j] == v.works[j]);
            if !v.works[j].state.spec_is_terminal() {
                assert forall|q: int| 0 <= q < ns.len() implies !downstream(v1, #[trigger] ns[q], j) by {
                    if downstream(v1, ns[q], j) {
                        let path = choose|path: Seq<int>| #[trigger] consumer_path(v1, path) && path[0] == ns[q]
                            && path.last() == j;
                        lemma_same_edges_same_paths(v, v1, path);
                        if q < rest.len() {
                            assert(ns[q] == stack[q]);
                            assert(!downstream(v, stack[q], j));
                        } else {
                            let k = q - rest.len();
                            assert(ns[q] == v.works[id].dependents[k]);
                            lemma_downstream_step(v, id, ns[q], j);
                            assert(!downstream(v, stack[stack.len() - 1], j));
                        }
                    }
                }
            }
            lemma_walk_untouched(v1, root, producer_failed, ns, j);
        }
    }
}

/// Failing an instance changes nothing for any instance that does not
/// consume it, directly or through other instances.
pub proof fn law_fail_spares_non_consumers(s: &ResourceScheduler, id: Seq<char>, detail: Seq<char>, j: int)
    requires
        s.wf(),
        0 <= j < s@.works.len(),
        find_spec(s@, id) matches Some(i) && !downstream(s@, i, j),
    ensures
        fail_spec(s@, id, detail).0.works[j] == s@.works[j],
{
    let v = s@;
    let i = find_spec(v, id)->0;
    if v.works[i].state.spec_owns_resources() {
        lemma_downstream_self(v, i);
        let v1 = set_state_spec(
            release_spec(v, i),
            i,
            LifecycleState::Failed,
            None,
            TransitionReasonView::ExecutionFailed { detail: detail },
        );
        let st = v.works[i].dependents;
        assert forall|q: int| 0 <= q < st.len() implies !downstream(v1, #[trigger] st[q], j) by {
            if downstream(v1, st[q], j) {
                let path = choose|path: Seq<int>| #[trigger] consumer_path(v1, path) && path[0] == st[q] && path.last() == j;
                lemma_same_edges_same_paths(v, v1, path);
                lemma_downstream_step(v, i, st[q], j);
            }
        }
        lemma_walk_untouched(v1, id, true, st, j);
    }
}

/// Cancelling an instance changes nothing for any instance that does not
/// consume it, directly or through other instances: its producers and
/// siblings keep their state.
pub proof fn law_cancel_spares_non_consumers(s: &ResourceScheduler, id: Seq<char>, detail: Seq<char>, j: int)
    requires
        s.wf(),
        0 <= j < s@.works.len(),
        find_spec(s@, id) matches Some(i) && !downstream(s@, i, j),
    ensures
        cancel_spec(s@, id, detail).0.works[j] == s@.works[j],
{
    let v = s@;
    let i = find_spec(v, id)->0;
    if !v.works[i].state.spec_is_terminal() {
        lemma_downstream_self(v, i);
        let v0 = if v.works[i].state.spec_owns_resources() {
            release_spec(v, i)
        } else {
            v
        };
        let v1 = set_state_spec(
            v0,
            i,
            LifecycleState::Cancelled,
            None,
            TransitionReasonView::ExplicitCancellation { detail: detail },
        );
        let st = v.works[i].dependents;
        assert forall|q: int| 0 <= q < st.len() implies !downstream(v1, #[trigger] st[q], j) by {
            if downstream(v1, st[q], j) {
                let path = choose|path: Seq<int>| #[trigger] consumer_path(v1, path) && path[0] == st[q] && path.last() == j;
                lemma_same_edges_same_paths(v, v1, path);
                lemma_downstream_step(v, i, st[q], j);
            }
        }
        lemma_walk_untouched(v1, id, false, st, j);
    }
}

/// A failure that is accepted leaves the instance failed.
pub proof fn law_fail_records_failure(s: &ResourceScheduler, id: Seq<char>, detail: Seq<char>)
    requires
        s.wf(),
        fail_spec(s@, id, detail).1 is Ok,
    ensures
        fail_spec(s@, id, detail).0.works[find_spec(s@, id)->0].state is Failed,
{
    let v = s@;
    let i = find_spec(v, id)->0;
    let v1 = set_state_spec(
        release_spec(v, i),
        i,
        LifecycleState::Failed,
        None,
        TransitionReasonView::ExecutionFailed { detail: detail },
    );
    lemma_walk_untouched(v1, id, true, v.works[i].dependents, i);
}

/// A cancellation that is accepted leaves the instance cancelled.
pub proof fn law_cancel_records_cancellation(s: &ResourceScheduler, id: Seq<char>, detail: Seq<char>)
    requires
        s.wf(),
        cancel_spec(s@, id, detail).1 is Ok,
    ensures
        cancel_spec(s@, id, detail).0.works[find_spec(s@, id)->0].state is Cancelled,
{
    let v = s@;
    let i = find_spec(v, id)->0;
    let v0 = if v.works[i].state.spec_owns_resources() {
        release_spec(v, i)
    } else {
        v
    };
    let v1 = set_state_spec(
        v0,
        i,
        LifecycleState::Cancelled,
        None,
        TransitionReasonView::ExplicitCancellation { detail: detail },
    );
    lemma_walk_untouched(v1, id, false, v.works[i].dependents, i);
}


proof fn lemma_admit_shape(v: SchedulerView, i: int, admitted: Seq<Seq<char>>)
    requires
        0 <= i,
        forall|j: int| i <= j < v.works.len() && (#[trigger] v.works[j]).state is Ready ==> v.works[j].wait is None,
    ensures
        admit_from(v, i, admitted).0.works.len() == v.works.len(),
        forall|j: int| 0 <= j < i && j < v.works.len() ==> #[trigger] admit_from(v, i, admitted).0.works[j] == v.works[j],
        forall|j: int| i <= j < v.works.len() ==> !(#[trigger] admit_from(v, i, admitted).0.works[j].state is Ready),
    decreases v.works.len() - i,
{
    if i < v.works.len() {
        let w = v.works[i];
        let resource_wait = w.state is Blocked && w.wait matches Some(WaitReasonView::Resources { .. });
        if !(w.state is Ready) && !resource_wait {
            lemma_admit_shape(v, i + 1, admitted);
        } else {
            let available = v.budget.spec_minus(v.allocated);
            if w.reservation.spec_fits_within(available) {
                let v1 = if resource_wait {
                    set_state_spec(v, i, LifecycleState::Ready, None, TransitionReasonView::ResourcesAvailable)
                } else {
                    v
                };
                let v2 = SchedulerView { allocated: v1.allocated.spec_plus(w.reservation), ..v1 };
                let v3 = set_state_spec(v2, i, LifecycleState::Running, None, TransitionReasonView::Admitted);
                assert forall|j: int| i + 1 <= j < v3.works.len() && (#[trigger] v3.works[j]).state is Ready
                    implies v3.works[j].wait is None by {
                    assert(v3.works[j] == v.works[j]);
                }
                lemma_admit_shape(v3, i + 1, admitted.push(w.id));
                let r = admit_from(v3, i + 1, admitted.push(w.id)).0;
                assert(r.works[i] == v3.works[i]);
            } else {
                let reason = WaitReasonView::Resources { deficit: spec_deficit(w.reservation, available) };
                let v1 = if w.wait != Some(reason) {
                    set_state_spec(v, i, LifecycleState::Blocked, Some(reason), TransitionReasonView::Waiting(reason))
                } else {
                    v
                };
                assert forall|j: int| i + 1 <= j < v1.works.len() && (#[trigger] v1.works[j]).state is Ready
                    implies v1.works[j].wait is None by {
                    assert(v1.works[j] == v.works[j]);
                }
                lemma_admit_shape(v1, i + 1, admitted);
                let r = admit_from(v1, i + 1, admitted).0;
                assert(r.works[i] == v1.works[i]);
            }
        }
    }
}

/// After admission nothing is left ready: every ready instance was either
/// admitted or left blocked on resources.
pub proof fn law_admission_leaves_nothing_ready(s: &ResourceScheduler, j: int)
    requires
        s.wf(),
        0 <= j < s@.works.len(),
    ensures
        !(admit_from(s@, 0, Seq::empty()).0.works[j].state is Ready),
{
    assert forall|x: int| 0 <= x < s@.works.len() && (#[trigger] s@.works[x]).state is Ready
        implies s@.works[x].wait is None by {
        if s@.works[x].wait is Some {
            assert(waits_wf(s@));
        }
    }
    lemma_admit_shape(s@, 0, Seq::empty());
}

} // verus!
