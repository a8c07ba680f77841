//! The CPU-slot timeline of an incremental run: the events recorded as
//! actions take and give back CPU slots, the trace that records them one
//! occupancy change at a time, and the report a finished run hands out,
//! with the replay that checks its slot accounting.
//!
//! A slot is acquired only for the duration of one dispatch's real
//! computation, never while an action merely waits on a dependency.
//! Times are nanoseconds since the run's own start.

use vstd::prelude::*;

use crate::resource_scheduler::strings_view;
use crate::text::{debug_items, debug_quoted, debug_str, decimal, owned, push_decimal, push_str};

verus! {

/// Why the incremental executor stopped: a broken session, or a delta
/// the session rejected when this executor did not expect it to.
#[derive(Debug, Clone, PartialEq, Eq)]
pub enum ExecutorError {
    Session(crate::incremental_session_client::IncrementalSessionError),
    UnexpectedRejected { detail: String },
}

impl ExecutorError {
    /// The error's human-readable text.
    pub fn message(&self) -> (r: String)
        ensures
            r@ == match self {
                ExecutorError::Session(e) => crate::incremental_session_client::session_error_text(*e),
                ExecutorError::UnexpectedRejected { detail } => "session rejected a delta this executor did not expect: "@
                    + detail@,
            },
    {
        match self {
            ExecutorError::Session(e) => e.message(),
            ExecutorError::UnexpectedRejected { detail } => {
                let mut m = owned("session rejected a delta this executor did not expect: ");
                push_str(&mut m, detail.as_str());
                m
            },
        }
    }
}

/// Whether an action took or gave back a CPU slot.
#[derive(Debug, Clone, Copy, PartialEq, Eq, Structural)]
pub enum SlotEventKind {
    Acquired,
    Released,
}

/// One slot event, tagged with the action that held the slot.
#[derive(Debug, Clone, PartialEq, Eq)]
pub struct SlotEvent {
    pub action_id: String,
    pub kind: SlotEventKind,
    /// Nanoseconds since the run's start.
    pub at: u64,
}

pub struct SlotEventView {
    pub action_id: Seq<char>,
    pub kind: SlotEventKind,
    pub at: u64,
}

impl View for SlotEvent {
    type V = SlotEventView;

    open spec fn view(&self) -> SlotEventView {
        SlotEventView { action_id: self.action_id@, kind: self.kind, at: self.at }
    }
}

pub open spec fn events_view(v: Seq<SlotEvent>) -> Seq<SlotEventView> {
    v.map_values(|e: SlotEvent| e@)
}

impl SlotEvent {
    /// An equal copy.
    pub fn duplicate(&self) -> (r: SlotEvent)
        ensures
            r@ == self@,
    {
        SlotEvent { action_id: self.action_id.clone(), kind: self.kind, at: self.at }
    }
}

/// The wall-clock duration of one planner round trip for one planning
/// event.
#[derive(Debug, Clone, PartialEq, Eq)]
pub struct EventTiming {
    pub event_id: String,
    pub event_kind: String,
    /// Nanoseconds.
    pub ipc_duration: u64,
}

/// How long one action waited on its dependencies before it became ready.
#[derive(Debug, Clone, PartialEq, Eq)]
pub struct ActionWait {
    pub action_id: String,
    /// Nanoseconds.
    pub wait: u64,
}

// ---------------------------------------------------------------------
// Occupancy
// ---------------------------------------------------------------------

/// How many slots are held after `es`: acquisitions minus releases.
pub open spec fn occupancy(es: Seq<SlotEventView>) -> int
    decreases es.len(),
{
    if es.len() == 0 {
        0
    } else {
        occupancy(es.drop_last()) + if es.last().kind is Acquired { 1int } else { -1int }
    }
}

/// The highest occupancy after any prefix of `es`.
pub open spec fn peak_occupancy(es: Seq<SlotEventView>) -> int
    decreases es.len(),
{
    if es.len() == 0 {
        0
    } else {
        let p = peak_occupancy(es.drop_last());
        let o = occupancy(es);
        if o > p { o } else { p }
    }
}

/// Every prefix of `es` holds a nonnegative number of slots.
pub open spec fn never_negative(es: Seq<SlotEventView>) -> bool {
    forall|k: int| 0 <= k <= es.len() ==> occupancy(#[trigger] es.take(k)) >= 0
}

/// The slot trace of one run: every occupancy change passes through
/// [`Self::record`], which updates the count of held slots, the peak and
/// the event series as one step. Callers that share a trace between
/// threads hold it under one lock, so that the order of the series is the
/// true order of the changes.
pub struct CpuSlotTrace {
    active: usize,
    peak: usize,
    events: Vec<SlotEvent>,
}

impl CpuSlotTrace {
    /// The recorded events, in order.
    pub closed spec fn events(&self) -> Seq<SlotEventView> {
        events_view(self.events@)
    }

    /// The trace's counters agree with its events.
    pub closed spec fn wf(&self) -> bool {
        &&& self.active == occupancy(self.events())
        &&& self.peak == peak_occupancy(self.events())
        &&& never_negative(self.events())
    }

    /// How many slots are held now.
    pub closed spec fn held(&self) -> nat {
        self.active as nat
    }

    /// An empty trace.
    pub fn new() -> (t: Self)
        ensures
            t.wf(),
            t.events() == Seq::<SlotEventView>::empty(),
            t.held() == 0,
    {
        let t = CpuSlotTrace { active: 0, peak: 0, events: Vec::new() };
        proof {
            assert(t.events() =~= Seq::<SlotEventView>::empty());
            assert forall|k: int| 0 <= k <= t.events().len() implies occupancy(#[trigger] t.events().take(k)) >= 0 by {
                assert(t.events().take(k) =~= Seq::<SlotEventView>::empty());
            }
        }
        t
    }

    /// Records one occupancy change at time `at`: the count of held slots,
    /// the peak, and the event series change together.
    pub fn record(&mut self, action_id: &str, kind: SlotEventKind, at: u64)
        requires
            old(self).wf(),
            kind is Released ==> old(self).held() > 0,
            kind is Acquired ==> old(self).held() < usize::MAX,
        ensures
            final(self).wf(),
            final(self).events() == old(self).events().push(SlotEventView { action_id: action_id@, kind: kind, at: at }),
            final(self).held() == (if kind is Acquired { old(self).held() + 1int } else { old(self).held() - 1int }),
    {
        let ghost before = self.events();
        match kind {
            SlotEventKind::Acquired => {
                self.active = self.active + 1;
                if self.active > self.peak {
                    self.peak = self.active;
                }
            },
            SlotEventKind::Released => {
                self.active = self.active - 1;
            },
        }
        let id = crate::text::owned(action_id);
        self.events.push(SlotEvent { action_id: id, kind, at });
        proof {
            let now = self.events();
            assert(now =~= before.push(SlotEventView { action_id: action_id@, kind: kind, at: at }));
            assert(now.drop_last() =~= before);
            assert forall|k: int| 0 <= k <= now.len() implies occupancy(#[trigger] now.take(k)) >= 0 by {
                if k < now.len() {
                    assert(now.take(k) =~= before.take(k));
                } else {
                    assert(now.take(k) =~= now);
                }
            }
        }
    }

    /// Records that `action_id` took a slot.
    pub fn enter(&mut self, action_id: &str, at: u64)
        requires
            old(self).wf(),
            old(self).held() < usize::MAX,
        ensures
            final(self).wf(),
            final(self).events() == old(self).events().push(
                SlotEventView { action_id: action_id@, kind: SlotEventKind::Acquired, at: at },
            ),
            final(self).held() == old(self).held() + 1,
    {
        self.record(action_id, SlotEventKind::Acquired, at);
    }

    /// Records that `action_id` gave its slot back.
    pub fn release(&mut self, action_id: &str, at: u64)
        requires
            old(self).wf(),
            old(self).held() > 0,
        ensures
            final(self).wf(),
            final(self).events() == old(self).events().push(
                SlotEventView { action_id: action_id@, kind: SlotEventKind::Released, at: at },
            ),
            final(self).held() == old(self).held() - 1,
    {
        self.record(action_id, SlotEventKind::Released, at);
    }

    /// The highest number of slots ever held at the same instant.
    pub fn peak_concurrent(&self) -> (r: usize)
        requires
            self.wf(),
        ensures
            r == peak_occupancy(self.events()),
    {
        self.peak
    }

    /// Every event recorded so far, in order.
    pub fn slot_events(&self) -> (r: Vec<SlotEvent>)
        ensures
            events_view(r@) == self.events(),
    {
        let mut out: Vec<SlotEvent> = Vec::new();
        let mut i: usize = 0;
        while i < self.events.len()
            invariant
                i <= self.events@.len(),
                events_view(out@) == events_view(self.events@).take(i as int),
            decreases self.events@.len() - i,
        {
            let ghost prev = out@;
            let e = self.events[i].duplicate();
            out.push(e);
            proof {
                assert(out@ =~= prev.push(e));
                assert(events_view(prev) == events_view(self.events@).take(i as int));
                assert(events_view(prev).len() == i);
                assert(prev.len() == i);
                assert(events_view(out@).len() == i + 1);
                assert forall|j: int| 0 <= j < i + 1 implies #[trigger] events_view(out@)[j] == events_view(self.events@).take(i + 1)[j] by {
                    if j < i {
                        assert(events_view(out@)[j] == out@[j]@);
                        assert(out@[j] == prev[j]);
                        assert(events_view(prev)[j] == prev[j]@);
                    }
                }
                assert(events_view(out@) =~= events_view(self.events@).take(i + 1));
            }
            i = i + 1;
        }
        proof {
            assert(events_view(self.events@).take(i as int) =~= events_view(self.events@));
        }
        out
    }
}


// ---------------------------------------------------------------------
// Replay
// ---------------------------------------------------------------------

/// The first way a slot timeline breaks the accounting rules.
pub enum SlotViolation {
    /// An action took a slot while already holding one.
    AcquiredTwice { action_id: Seq<char> },
    /// Taking a slot made more slots held than the budget allows.
    OverBudget { held: nat, budget: nat, action_id: Seq<char> },
    /// An action gave back a slot it did not hold.
    NeverHeld { action_id: Seq<char> },
    /// Slots still held when the timeline ends, in the order taken.
    StillHeld { held: Seq<Seq<char>> },
}

/// Replays `es` from position `k`, with `held` the actions holding a slot
/// in the order they took it.
pub open spec fn replay(es: Seq<SlotEventView>, budget: nat, k: int, held: Seq<Seq<char>>) -> Result<(), SlotViolation>
    decreases es.len() - k,
{
    if k < 0 || k >= es.len() {
        if held.len() == 0 {
            Ok(())
        } else {
            Err(SlotViolation::StillHeld { held: held })
        }
    } else {
        let e = es[k];
        match e.kind {
            SlotEventKind::Acquired => if held.contains(e.action_id) {
                Err(SlotViolation::AcquiredTwice { action_id: e.action_id })
            } else if held.len() + 1 > budget {
                Err(SlotViolation::OverBudget { held: held.len() + 1, budget: budget, action_id: e.action_id })
            } else {
                replay(es, budget, k + 1, held.push(e.action_id))
            },
            SlotEventKind::Released => if !held.contains(e.action_id) {
                Err(SlotViolation::NeverHeld { action_id: e.action_id })
            } else {
                replay(es, budget, k + 1, held.remove(held.index_of(e.action_id)))
            },
        }
    }
}

/// The message a violation is reported with.
pub open spec fn violation_message(v: SlotViolation) -> Seq<char> {
    match v {
        SlotViolation::AcquiredTwice { action_id } => "action "@ + debug_str(action_id)
            + " acquired a CPU slot twice without an intervening release"@,
        SlotViolation::OverBudget { held, budget, action_id } => "held_slots ("@ + decimal(held)
            + ") exceeded cpu_budget ("@ + decimal(budget) + ") when action "@ + debug_str(action_id)
            + " acquired its slot"@,
        SlotViolation::NeverHeld { action_id } => "action "@ + debug_str(action_id)
            + " released a CPU slot it never held"@,
        SlotViolation::StillHeld { held } => decimal(held.len())
            + " action(s) still hold a CPU slot after the run completed: "@ + ("{"@ + debug_items(held) + "}"@),
    }
}

/// The earliest time any action took a slot.
pub open spec fn first_acquisition(es: Seq<SlotEventView>) -> Option<u64>
    decreases es.len(),
{
    if es.len() == 0 {
        None
    } else {
        let r = first_acquisition(es.drop_last());
        let e = es.last();
        if e.kind is Acquired {
            match r {
                None => Some(e.at),
                Some(m) => Some(if e.at < m { e.at } else { m }),
            }
        } else {
            r
        }
    }
}

/// The time of the first event of `kind` for `id`, from position `k` on.
pub open spec fn first_event_at(es: Seq<SlotEventView>, id: Seq<char>, kind: SlotEventKind, k: int) -> Option<u64>
    decreases es.len() - k,
{
    if k < 0 || k >= es.len() {
        None
    } else if es[k].kind == kind && es[k].action_id == id {
        Some(es[k].at)
    } else {
        first_event_at(es, id, kind, k + 1)
    }
}

/// The time of the last event of `kind` for `id` among `es`.
pub open spec fn last_event_at(es: Seq<SlotEventView>, id: Seq<char>, kind: SlotEventKind) -> Option<u64>
    decreases es.len(),
{
    if es.len() == 0 {
        None
    } else if es.last().kind == kind && es.last().action_id == id {
        Some(es.last().at)
    } else {
        last_event_at(es.drop_last(), id, kind)
    }
}

/// Where `id` sits among `held`, if it does.
fn position_in(held: &Vec<String>, id: &String) -> (r: Option<usize>)
    ensures
        r matches Some(p) ==> p < held@.len() && held@[p as int]@ == id@,
        r is None ==> !strings_view(held@).contains(id@),
{
    let mut p: usize = 0;
    while p < held.len()
        invariant
            p <= held@.len(),
            forall|q: int| 0 <= q < p ==> (#[trigger] held@[q])@ != id@,
        decreases held@.len() - p,
    {
        if held[p] == *id {
            return Some(p);
        }
        p = p + 1;
    }
    proof {
        if strings_view(held@).contains(id@) {
            let q = choose|q: int| 0 <= q < strings_view(held@).len() && strings_view(held@)[q] == id@;
            assert(held@[q]@ == id@);
        }
    }
    None
}

/// The quoted, comma-separated list of `held`, in braces.
fn held_list(held: &Vec<String>) -> (r: String)
    ensures
        r@ == "{"@ + debug_items(strings_view(held@)) + "}"@,
{
    let ghost sv = strings_view(held@);
    let mut m = owned("{");
    let mut k: usize = 0;
    proof {
        assert(sv.take(0) =~= Seq::<Seq<char>>::empty());
    }
    while k < held.len()
        invariant
            sv == strings_view(held@),
            k <= sv.len(),
            m@ == "{"@ + debug_items(sv.take(k as int)),
        decreases sv.len() - k,
    {
        let ghost before = m@;
        if k > 0 {
            push_str(&mut m, ", ");
        }
        let q = debug_quoted(held[k].as_str());
        push_str(&mut m, q.as_str());
        proof {
            let t = sv.take(k + 1);
            assert(t.drop_last() =~= sv.take(k as int));
            assert(t.last() == sv[k as int]);
            assert(sv[k as int] == held@[k as int]@);
            if k == 0 {
                assert(t.len() == 1);
                assert(debug_items(sv.take(0)) =~= Seq::<char>::empty());
                assert(m@ =~= "{"@ + debug_items(t));
            } else {
                assert(m@ =~= "{"@ + debug_items(t));
            }
        }
        k = k + 1;
    }
    proof {
        assert(sv.take(k as int) =~= sv);
    }
    push_str(&mut m, "}");
    m
}

/// What a finished run reports, besides its evidence.
pub struct ExecutionReport {
    /// How many dependency discoveries genuinely added at least one new
    /// action to the graph.
    pub dynamic_expansion_count: usize,
    pub event_timings: Vec<EventTiming>,
    pub action_waits: Vec<ActionWait>,
    /// Every slot event of the run, in time order.
    pub slot_events: Vec<SlotEvent>,
    /// The highest number of slots held at once, as recorded from the trace.
    pub peak_concurrent: usize,
}

impl ExecutionReport {
    /// The slot events, as values.
    pub open spec fn events(&self) -> Seq<SlotEventView> {
        events_view(self.slot_events@)
    }

    /// The recorded peak concurrency.
    pub open spec fn peak(&self) -> nat {
        self.peak_concurrent as nat
    }

    pub open spec fn expansions(&self) -> usize {
        self.dynamic_expansion_count
    }

    pub open spec fn timings(&self) -> Seq<EventTiming> {
        self.event_timings@
    }

    pub open spec fn waits(&self) -> Seq<ActionWait> {
        self.action_waits@
    }

    /// An empty report.
    pub fn new() -> (r: Self)
        ensures
            r.expansions() == 0,
            r.timings().len() == 0,
            r.waits().len() == 0,
            r.events() == Seq::<SlotEventView>::empty(),
            r.peak() == 0,
    {
        let r = ExecutionReport {
            dynamic_expansion_count: 0,
            event_timings: Vec::new(),
            action_waits: Vec::new(),
            slot_events: Vec::new(),
            peak_concurrent: 0,
        };
        proof {
            assert(r.events() =~= Seq::<SlotEventView>::empty());
        }
        r
    }

    /// Folds a finished trace into the report: its events and its peak.
    pub fn record_trace(&mut self, trace: &CpuSlotTrace)
        requires
            trace.wf(),
        ensures
            final(self).events() == trace.events(),
            final(self).peak() == peak_occupancy(trace.events()),
            final(self).expansions() == old(self).expansions(),
            final(self).timings() == old(self).timings(),
            final(self).waits() == old(self).waits(),
    {
        self.slot_events = trace.slot_events();
        self.peak_concurrent = trace.peak_concurrent();
    }

    /// The highest number of actions ever observed genuinely executing at
    /// the same instant.
    pub fn peak_concurrent(&self) -> (r: usize)
        ensures
            r == self.peak(),
    {
        self.peak_concurrent
    }

    /// When the first real computation began: the earliest slot
    /// acquisition.
    pub fn time_to_first_useful_work(&self) -> (r: Option<u64>)
        ensures
            r == first_acquisition(self.events()),
    {
        let ghost es = self.events();
        let mut best: Option<u64> = None;
        let mut i: usize = 0;
        while i < self.slot_events.len()
            invariant
                es == events_view(self.slot_events@),
                i <= es.len(),
                best == first_acquisition(es.take(i as int)),
            decreases es.len() - i,
        {
            proof {
                assert(es.take(i + 1).drop_last() =~= es.take(i as int));
                assert(es.take(i + 1).last() == es[i as int]);
                assert(es[i as int] == self.slot_events@[i as int]@);
            }
            let e = &self.slot_events[i];
            if e.kind == SlotEventKind::Acquired {
                best = match best {
                    None => Some(e.at),
                    Some(m) => Some(if e.at < m { e.at } else { m }),
                };
            }
            i = i + 1;
        }
        proof {
            assert(es.take(i as int) =~= es);
        }
        best
    }

    /// When `action_id` first acquired a slot, if it ever did.
    pub fn slot_acquired_at(&self, action_id: &str) -> (r: Option<u64>)
        ensures
            r == first_event_at(self.events(), action_id@, SlotEventKind::Acquired, 0),
    {
        let ghost es = self.events();
        let mut i: usize = 0;
        while i < self.slot_events.len()
            invariant
                es == events_view(self.slot_events@),
                i <= es.len(),
                first_event_at(es, action_id@, SlotEventKind::Acquired, 0) == first_event_at(
                    es,
                    action_id@,
                    SlotEventKind::Acquired,
                    i as int,
                ),
            decreases es.len() - i,
        {
            proof {
                assert(es[i as int] == self.slot_events@[i as int]@);
            }
            let e = &self.slot_events[i];
            if e.kind == SlotEventKind::Acquired && crate::text::str_eq(e.action_id.as_str(), action_id) {
                return Some(e.at);
            }
            i = i + 1;
        }
        None
    }

    /// Replays the recorded slot timeline and checks the accounting rules:
    /// no action takes a slot twice without giving it back, the number of
    /// held slots never exceeds `cpu_budget`, no action gives back a slot
    /// it does not hold, and every slot taken is given back.
    pub fn verify_slot_invariants(&self, cpu_budget: usize) -> (r: Result<(), String>)
        ensures
            match replay(self.events(), cpu_budget as nat, 0, Seq::empty()) {
                Ok(()) => r is Ok,
                Err(v) => r matches Err(m) && m@ == violation_message(v),
            },
    {
        let ghost es = self.events();
        let ghost b = cpu_budget as nat;
        let mut held: Vec<String> = Vec::new();
        let mut i: usize = 0;
        proof {
            assert(strings_view(held@) =~= Seq::<Seq<char>>::empty());
        }
        while i < self.slot_events.len()
            invariant
                es == events_view(self.slot_events@),
                b == cpu_budget as nat,
                i <= es.len(),
                strings_view(held@).no_duplicates(),
                replay(es, b, 0, Seq::empty()) == replay(es, b, i as int, strings_view(held@)),
            decreases es.len() - i,
        {
            let ghost hv = strings_view(held@);
            proof {
                assert(es[i as int] == self.slot_events@[i as int]@);
            }
            let e = &self.slot_events[i];
            match e.kind {
                SlotEventKind::Acquired => {
                    match position_in(&held, &e.action_id) {
                        Some(p) => {
                            proof {
                                assert(hv[p as int] == e.action_id@);
                            }
                            let mut m = owned("action ");
                            let q = debug_quoted(e.action_id.as_str());
                            push_str(&mut m, q.as_str());
                            push_str(&mut m, " acquired a CPU slot twice without an intervening release");
                            return Err(m);
                        },
                        None => {},
                    }
                    held.push(e.action_id.clone());
                    proof {
                        assert(strings_view(held@) =~= hv.push(e.action_id@));
                    }
                    if held.len() > cpu_budget {
                        let mut m = owned("held_slots (");
                        push_decimal(&mut m, held.len() as u64);
                        push_str(&mut m, ") exceeded cpu_budget (");
                        push_decimal(&mut m, cpu_budget as u64);
                        push_str(&mut m, ") when action ");
                        let q = debug_quoted(e.action_id.as_str());
                        push_str(&mut m, q.as_str());
                        push_str(&mut m, " acquired its slot");
                        return Err(m);
                    }
                },
                SlotEventKind::Released => {
                    match position_in(&held, &e.action_id) {
                        None => {
                            let mut m = owned("action ");
                            let q = debug_quoted(e.action_id.as_str());
                            push_str(&mut m, q.as_str());
                            push_str(&mut m, " released a CPU slot it never held");
                            return Err(m);
                        },
                        Some(p) => {
                            proof {
                                assert(hv[p as int] == e.action_id@);
                                assert(hv.contains(e.action_id@));
                                let x = hv.index_of(e.action_id@);
                                assert(hv[x] == e.action_id@);
                                assert(x == p);
                            }
                            held.remove(p);
                            proof {
                                assert(strings_view(held@) =~= hv.remove(p as int));
                            }
                        },
                    }
                },
            }
            i = i + 1;
        }
        if held.len() > 0 {
            let mut m = String::new();
            push_decimal(&mut m, held.len() as u64);
            push_str(&mut m, " action(s) still hold a CPU slot after the run completed: ");
            let l = held_list(&held);
            push_str(&mut m, l.as_str());
            proof {
                assert(m@ =~= decimal(strings_view(held@).len()) + " action(s) still hold a CPU slot after the run completed: "@
                    + ("{"@ + debug_items(strings_view(held@)) + "}"@));
            }
            return Err(m);
        }
        Ok(())
    }

    /// When `action_id` last released a slot, if it ever did.
    pub fn slot_released_at(&self, action_id: &str) -> (r: Option<u64>)
        ensures
            r == last_event_at(self.events(), action_id@, SlotEventKind::Released),
    {
        let ghost es = self.events();
        let mut i: usize = self.slot_events.len();
        proof {
            assert(es.take(i as int) =~= es);
        }
        while i > 0
            invariant
                es == events_view(self.slot_events@),
                i <= es.len(),
                last_event_at(es, action_id@, SlotEventKind::Released) == last_event_at(
                    es.take(i as int),
                    action_id@,
                    SlotEventKind::Released,
                ),
            decreases i,
        {
            proof {
                assert(es.take(i as int).drop_last() =~= es.take(i - 1));
                assert(es.take(i as int).last() == es[i - 1]);
                assert(es[i - 1] == self.slot_events@[i - 1]@);
            }
            let e = &self.slot_events[i - 1];
            if e.kind == SlotEventKind::Released && crate::text::str_eq(e.action_id.as_str(), action_id) {
                return Some(e.at);
            }
            i = i - 1;
        }
        None
    }
}


// ---------------------------------------------------------------------
// Laws
// ---------------------------------------------------------------------

/// The actions holding a slot after replaying `es`, in the order they took
/// it (an invalid step changes nothing).
pub open spec fn held_after(es: Seq<SlotEventView>) -> Seq<Seq<char>>
    decreases es.len(),
{
    if es.len() == 0 {
        Seq::empty()
    } else {
        let h = held_after(es.drop_last());
        let e = es.last();
        match e.kind {
            SlotEventKind::Acquired => if h.contains(e.action_id) {
                h
            } else {
                h.push(e.action_id)
            },
            SlotEventKind::Released => if h.contains(e.action_id) {
                h.remove(h.index_of(e.action_id))
            } else {
                h
            },
        }
    }
}

/// The most actions holding a slot at once during the replay of `es`.
pub open spec fn replayed_peak(es: Seq<SlotEventView>) -> int
    decreases es.len(),
{
    if es.len() == 0 {
        0
    } else {
        let p = replayed_peak(es.drop_last());
        let h = held_after(es).len() as int;
        if h > p { h } else { p }
    }
}

proof fn lemma_valid_prefix(es: Seq<SlotEventView>, b: nat, k: int)
    requires
        0 <= k <= es.len(),
        replay(es, b, 0, Seq::empty()) is Ok,
    ensures
        replay(es, b, 0, Seq::empty()) == replay(es, b, k, held_after(es.take(k))),
        held_after(es.take(k)).len() == occupancy(es.take(k)),
    decreases k,
{
    if k == 0 {
        assert(es.take(0) =~= Seq::<SlotEventView>::empty());
    } else {
        lemma_valid_prefix(es, b, k - 1);
        let t = es.take(k);
        assert(t.drop_last() =~= es.take(k - 1));
        assert(t.last() == es[k - 1]);
        let h = held_after(es.take(k - 1));
        let e = es[k - 1];
        if e.kind is Acquired {
            assert(!h.contains(e.action_id));
        } else {
            assert(h.contains(e.action_id));
            let x = h.index_of(e.action_id);
            assert(0 <= x < h.len() && h[x] == e.action_id);
        }
    }
}

/// A timeline that passes the replay check has, after every prefix, as
/// many slots held by distinct actions as acquisitions minus releases; so
/// the peak a trace tracks by counting is the peak the replay sees.
pub proof fn law_valid_timeline_peak(es: Seq<SlotEventView>, budget: nat)
    requires
        replay(es, budget, 0, Seq::empty()) is Ok,
    ensures
        peak_occupancy(es) == replayed_peak(es),
        forall|k: int| 0 <= k <= es.len() ==> (#[trigger] held_after(es.take(k))).len() == occupancy(es.take(k)),
{
    assert forall|k: int| 0 <= k <= es.len() implies (#[trigger] held_after(es.take(k))).len() == occupancy(es.take(k)) by {
        lemma_valid_prefix(es, budget, k);
    }
    lemma_peaks_agree(es, budget, es.len() as int);
    assert(es.take(es.len() as int) =~= es);
}

proof fn lemma_peaks_agree(es: Seq<SlotEventView>, b: nat, k: int)
    requires
        0 <= k <= es.len(),
        replay(es, b, 0, Seq::empty()) is Ok,
    ensures
        peak_occupancy(es.take(k)) == replayed_peak(es.take(k)),
    decreases k,
{
    if k > 0 {
        lemma_peaks_agree(es, b, k - 1);
        lemma_valid_prefix(es, b, k);
        assert(es.take(k).drop_last() =~= es.take(k - 1));
    }
}

/// The trace's own peak equals the peak recomputed by replaying its
/// events, whenever those events pass the replay check.
pub proof fn law_trace_peak_matches_replay(t: &CpuSlotTrace, budget: nat)
    requires
        t.wf(),
        replay(t.events(), budget, 0, Seq::empty()) is Ok,
    ensures
        peak_occupancy(t.events()) == replayed_peak(t.events()),
{
    law_valid_timeline_peak(t.events(), budget);
}

// ---------------------------------------------------------------------
// Dependency waits across plan deltas
// ---------------------------------------------------------------------

/// The planning states a change is read for: the start and the end of a
/// dependency wait; every other state is alike here.
#[derive(Debug, Clone, Copy, PartialEq, Eq, Structural)]
pub enum ActionStateTag {
    BlockedDependency,
    Ready,
    Other,
}

/// One action's change in a plan delta: its states before and after, and
/// whether the change introduces the action's definition.
#[derive(Debug, Clone, PartialEq, Eq)]
pub struct ActionChangeFacts {
    pub action_id: String,
    pub from_state: Option<ActionStateTag>,
    pub to_state: Option<ActionStateTag>,
    pub introduces_action: bool,
}

/// The change starts a dependency wait.
pub open spec fn starts_wait(c: ActionChangeFacts) -> bool {
    c.to_state == Some(ActionStateTag::BlockedDependency)
}

/// The change ends a dependency wait: blocked, then ready.
pub open spec fn ends_wait(c: ActionChangeFacts) -> bool {
    c.from_state == Some(ActionStateTag::BlockedDependency) && c.to_state == Some(ActionStateTag::Ready)
}

/// The change makes the action ready.
pub open spec fn makes_ready(c: ActionChangeFacts) -> bool {
    c.to_state == Some(ActionStateTag::Ready)
}

/// When each blocked action started waiting, after the changes `cs`
/// (an action that starts waiting again keeps its first start).
pub open spec fn blocked_after(b0: Map<Seq<char>, u64>, cs: Seq<ActionChangeFacts>, now: u64) -> Map<Seq<char>, u64>
    decreases cs.len(),
{
    if cs.len() == 0 {
        b0
    } else {
        let b = blocked_after(b0, cs.drop_last(), now);
        let c = cs.last();
        if starts_wait(c) && !b.contains_key(c.action_id@) {
            b.insert(c.action_id@, now)
        } else if ends_wait(c) {
            b.remove(c.action_id@)
        } else {
            b
        }
    }
}

/// `a - b`, or zero when `b` is later.
pub open spec fn elapsed_between(b: u64, a: u64) -> u64 {
    if a >= b {
        (a - b) as u64
    } else {
        0
    }
}

/// The dependency waits the changes `cs` end, in order: each lasted from
/// the action's recorded start (the session's start when none was seen)
/// until `now`.
pub open spec fn waits_after(b0: Map<Seq<char>, u64>, cs: Seq<ActionChangeFacts>, now: u64, start: u64) -> Seq<(Seq<char>, u64)>
    decreases cs.len(),
{
    if cs.len() == 0 {
        Seq::empty()
    } else {
        let prev = waits_after(b0, cs.drop_last(), now, start);
        let b = blocked_after(b0, cs.drop_last(), now);
        let c = cs.last();
        if ends_wait(c) {
            let since = if b.contains_key(c.action_id@) {
                b[c.action_id@]
            } else {
                start
            };
            prev.push((c.action_id@, elapsed_between(since, now)))
        } else {
            prev
        }
    }
}

/// The actions the changes `cs` make ready, in order.
pub open spec fn ready_after(cs: Seq<ActionChangeFacts>) -> Seq<Seq<char>>
    decreases cs.len(),
{
    if cs.len() == 0 {
        Seq::empty()
    } else if makes_ready(cs.last()) {
        ready_after(cs.drop_last()).push(cs.last().action_id@)
    } else {
        ready_after(cs.drop_last())
    }
}

/// Every action made ready has a known definition by then: known before
/// the delta, or introduced by this change or an earlier one.
pub open spec fn ready_actions_known(known: Set<Seq<char>>, cs: Seq<ActionChangeFacts>) -> bool {
    forall|i: int| 0 <= i < cs.len() && makes_ready(#[trigger] cs[i]) ==> cs[i].introduces_action || known.contains(cs[i].action_id@)
        || exists|j: int| 0 <= j < i && cs[j].introduces_action && cs[j].action_id@ == cs[i].action_id@
}

/// The known actions after the changes: those known before and those the
/// changes introduce.
pub open spec fn known_after(known: Set<Seq<char>>, cs: Seq<ActionChangeFacts>) -> Set<Seq<char>> {
    known.union(Set::new(|k: Seq<char>| exists|i: int| 0 <= i < cs.len() && cs[i].introduces_action && cs[i].action_id@ == k))
}

/// The waits as values.
pub open spec fn waits_view(ws: Seq<ActionWait>) -> Seq<(Seq<char>, u64)> {
    ws.map_values(|w: ActionWait| (w.action_id@, w.wait))
}

/// Which actions are waiting on their dependencies, and since when (on
/// the run's clock, in nanoseconds).
pub struct WaitTracker {
    blocked_since: Vec<(String, u64)>,
    session_start_ns: u64,
}

/// The entries' keys are distinct.
pub open spec fn distinct_keys(v: Seq<(String, u64)>) -> bool {
    forall|a: int, b: int| 0 <= a < b < v.len() ==> (#[trigger] v[a]).0@ != (#[trigger] v[b]).0@
}

/// The entries as a map.
pub open spec fn entries_map(v: Seq<(String, u64)>) -> Map<Seq<char>, u64>
    decreases v.len(),
{
    if v.len() == 0 {
        Map::empty()
    } else {
        entries_map(v.drop_last()).insert(v.last().0@, v.last().1)
    }
}

proof fn lemma_entries_map_keys(v: Seq<(String, u64)>, k: Seq<char>)
    requires
        distinct_keys(v),
    ensures
        entries_map(v).contains_key(k) <==> exists|i: int| 0 <= i < v.len() && (#[trigger] v[i]).0@ == k,
        forall|i: int| 0 <= i < v.len() && (#[trigger] v[i]).0@ == k ==> entries_map(v)[k] == v[i].1,
    decreases v.len(),
{
    if v.len() > 0 {
        let w = v.drop_last();
        assert(distinct_keys(w)) by {
            assert forall|a: int, b: int| 0 <= a < b < w.len() implies (#[trigger] w[a]).0@ != (#[trigger] w[b]).0@ by {
                assert(w[a] == v[a] && w[b] == v[b]);
            }
        }
        lemma_entries_map_keys(w, k);
        if exists|i: int| 0 <= i < v.len() && (#[trigger] v[i]).0@ == k {
            let i = choose|i: int| 0 <= i < v.len() && (#[trigger] v[i]).0@ == k;
            if i < v.len() - 1 {
                assert(w[i] == v[i]);
            }
        }
        assert forall|i: int| 0 <= i < v.len() && (#[trigger] v[i]).0@ == k implies entries_map(v)[k] == v[i].1 by {
            if i < v.len() - 1 {
                assert(w[i] == v[i]);
                assert(v[i].0@ != v[v.len() - 1].0@);
            }
        }
        if entries_map(w).contains_key(k) {
            let i = choose|i: int| 0 <= i < w.len() && (#[trigger] w[i]).0@ == k;
            assert(v[i] == w[i]);
        }
    }
}

proof fn lemma_entries_map_push(v: Seq<(String, u64)>, e: (String, u64))
    ensures
        entries_map(v.push(e)) == entries_map(v).insert(e.0@, e.1),
{
    assert(v.push(e).drop_last() =~= v);
}

proof fn lemma_entries_map_remove(v: Seq<(String, u64)>, i: int)
    requires
        distinct_keys(v),
        0 <= i < v.len(),
    ensures
        distinct_keys(v.remove(i)),
        entries_map(v.remove(i)) == entries_map(v).remove(v[i].0@),
{
    let w = v.remove(i);
    assert(distinct_keys(w)) by {
        assert forall|a: int, b: int| 0 <= a < b < w.len() implies (#[trigger] w[a]).0@ != (#[trigger] w[b]).0@ by {
            let a2 = if a < i { a } else { a + 1 };
            let b2 = if b < i { b } else { b + 1 };
            assert(w[a] == v[a2] && w[b] == v[b2]);
        }
    }
    let k = v[i].0@;
    assert forall|x: Seq<char>| #![trigger entries_map(w).contains_key(x)]
        entries_map(w).contains_key(x) == entries_map(v).remove(k).contains_key(x)
        && (entries_map(w).contains_key(x) ==> entries_map(w)[x] == entries_map(v).remove(k)[x]) by {
        lemma_entries_map_keys(w, x);
        lemma_entries_map_keys(v, x);
        if exists|j: int| 0 <= j < w.len() && (#[trigger] w[j]).0@ == x {
            let j = choose|j: int| 0 <= j < w.len() && (#[trigger] w[j]).0@ == x;
            let j2 = if j < i { j } else { j + 1 };
            assert(w[j] == v[j2]);
            assert(x != k);
        }
        if x != k && exists|j: int| 0 <= j < v.len() && (#[trigger] v[j]).0@ == x {
            let j = choose|j: int| 0 <= j < v.len() && (#[trigger] v[j]).0@ == x;
            assert(j != i);
            let j2 = if j < i { j } else { j - 1 };
            assert(w[j2] == v[j]);
        }
    }
    assert(entries_map(w) =~= entries_map(v).remove(k));
}

impl WaitTracker {
    /// The recorded starts of the waits in progress.
    pub closed spec fn blocked(&self) -> Map<Seq<char>, u64> {
        entries_map(self.blocked_since@)
    }

    /// When the session started.
    pub closed spec fn start(&self) -> u64 {
        self.session_start_ns
    }

    /// Each action is recorded once.
    pub closed spec fn wf(&self) -> bool {
        distinct_keys(self.blocked_since@)
    }

    /// No wait in progress yet.
    pub fn new(session_start_ns: u64) -> (r: Self)
        ensures
            r.wf(),
            r.blocked() == Map::<Seq<char>, u64>::empty(),
            r.start() == session_start_ns,
    {
        WaitTracker { blocked_since: Vec::new(), session_start_ns }
    }

    fn position(&self, id: &str) -> (r: Option<usize>)
        requires
            self.wf(),
        ensures
            match r {
                Some(i) => i < self.blocked_since@.len() && self.blocked_since@[i as int].0@ == id@,
                None => !self.blocked().contains_key(id@),
            },
    {
        let mut i: usize = 0;
        while i < self.blocked_since.len()
            invariant
                i <= self.blocked_since@.len(),
                forall|j: int| 0 <= j < i ==> (#[trigger] self.blocked_since@[j]).0@ != id@,
            decreases self.blocked_since@.len() - i,
        {
            if crate::text::str_eq(self.blocked_since[i].0.as_str(), id) {
                return Some(i);
            }
            i = i + 1;
        }
        proof {
            lemma_entries_map_keys(self.blocked_since@, id@);
        }
        None
    }

    /// Applies one plan delta's changes, in order, at time `now_ns`:
    /// introduced actions become known; a change into
    /// `blocked_dependency` starts a wait (unless one is in progress); a
    /// change from `blocked_dependency` to `ready` ends it, giving the
    /// time waited; and every change into `ready` names an action to
    /// dispatch. Gives the actions to dispatch and the waits ended.
    pub fn apply_changes(&mut self, changes: &Vec<ActionChangeFacts>, known: &mut Vec<String>, now_ns: u64) -> (r: (
        Vec<String>,
        Vec<ActionWait>,
    ))
        requires
            old(self).wf(),
            ready_actions_known(strings_view(old(known)@).to_set(), changes@),
        ensures
            final(self).wf(),
            final(self).start() == old(self).start(),
            final(self).blocked() == blocked_after(old(self).blocked(), changes@, now_ns),
            strings_view(final(known)@).to_set() == known_after(strings_view(old(known)@).to_set(), changes@),
            strings_view(r.0@) == ready_after(changes@),
            waits_view(r.1@) == waits_after(old(self).blocked(), changes@, now_ns, old(self).start()),
    {
        let ghost b0 = self.blocked();
        let ghost k0 = strings_view(known@).to_set();
        let mut ready: Vec<String> = Vec::new();
        let mut waits: Vec<ActionWait> = Vec::new();
        let mut n: usize = 0;
        while n < changes.len()
            invariant
                n <= changes@.len(),
                self.wf(),
                self.start() == old(self).start(),
                b0 == old(self).blocked(),
                self.blocked() == blocked_after(b0, changes@.take(n as int), now_ns),
                strings_view(known@).to_set() == known_after(k0, changes@.take(n as int)),
                strings_view(ready@) == ready_after(changes@.take(n as int)),
                waits_view(waits@) == waits_after(b0, changes@.take(n as int), now_ns, self.start()),
            decreases changes@.len() - n,
        {
            let c = &changes[n];
            let ghost pre = changes@.take(n as int);
            let ghost cur = changes@.take(n + 1);
            proof {
                assert(cur.drop_last() =~= pre);
                assert(cur.last() == changes@[n as int]);
            }
            // Known actions.
            let ghost kpre = strings_view(known@);
            if c.introduces_action {
                if !crate::text::sorted_contains(known, c.action_id.as_str()) {
                    known.push(c.action_id.clone());
                    proof {
                        assert(strings_view(known@) =~= kpre.push(c.action_id@));
                    }
                }
            }
            proof {
                let id = c.action_id@;
                assert(cur[n as int] == *c);
                assert forall|x: Seq<char>| known_after(k0, cur).contains(x) <==> (known_after(k0, pre).contains(x)
                    || (c.introduces_action && x == id)) by {
                    if known_after(k0, cur).contains(x) && !k0.contains(x) {
                        let i = choose|i: int| 0 <= i < cur.len() && cur[i].introduces_action && cur[i].action_id@ == x;
                        if i < n {
                            assert(pre[i] == cur[i]);
                            assert(exists|i2: int| 0 <= i2 < pre.len() && pre[i2].introduces_action && pre[i2].action_id@ == x);
                        }
                    }
                    if known_after(k0, pre).contains(x) && !k0.contains(x) {
                        let i = choose|i: int| 0 <= i < pre.len() && pre[i].introduces_action && pre[i].action_id@ == x;
                        assert(cur[i] == pre[i]);
                        assert(exists|i2: int| 0 <= i2 < cur.len() && cur[i2].introduces_action && cur[i2].action_id@ == x);
                    }
                    if c.introduces_action && x == id {
                        assert(exists|i2: int| 0 <= i2 < cur.len() && cur[i2].introduces_action && cur[i2].action_id@ == x);
                    }
                }
                assert forall|x: Seq<char>| strings_view(known@).contains(x) <==> (kpre.contains(x) || (c.introduces_action && x == id)) by {
                    if strings_view(known@).contains(x) && !kpre.contains(x) {
                        let j = choose|j: int| 0 <= j < strings_view(known@).len() && strings_view(known@)[j] == x;
                        if j < kpre.len() {
                            assert(strings_view(known@)[j] == kpre[j]);
                        }
                    }
                    if kpre.contains(x) {
                        let j = choose|j: int| 0 <= j < kpre.len() && kpre[j] == x;
                        assert(strings_view(known@)[j] == x);
                    }
                    if c.introduces_action && x == id && !kpre.contains(x) {
                        assert(strings_view(known@)[kpre.len() as int] == x);
                    }
                }
                assert(kpre.to_set() == known_after(k0, pre));
                assert forall|x: Seq<char>| strings_view(known@).to_set().contains(x) <==> known_after(k0, cur).contains(x) by {
                    assert(kpre.to_set().contains(x) <==> kpre.contains(x));
                }
                assert(strings_view(known@).to_set() =~= known_after(k0, cur));
            }
            // Waits.
            let ghost bpre = self.blocked();
            let ghost wpre = waits@;
            let starts = match c.to_state {
                Some(ActionStateTag::BlockedDependency) => true,
                _ => false,
            };
            let from_blocked = match c.from_state {
                Some(ActionStateTag::BlockedDependency) => true,
                _ => false,
            };
            let to_ready = match c.to_state {
                Some(ActionStateTag::Ready) => true,
                _ => false,
            };
            if starts {
                match self.position(c.action_id.as_str()) {
                    Some(_) => {
                        proof {
                            lemma_entries_map_keys(self.blocked_since@, c.action_id@);
                        }
                    },
                    None => {
                        let ghost v = self.blocked_since@;
                        proof {
                            assert forall|j: int| 0 <= j < v.len() implies (#[trigger] v[j]).0@ != c.action_id@ by {
                                lemma_entries_map_keys(v, c.action_id@);
                            }
                        }
                        let entry = (c.action_id.clone(), now_ns);
                        let ghost e = entry;
                        self.blocked_since.push(entry);
                        proof {
                            lemma_entries_map_push(v, e);
                            assert(self.blocked_since@ =~= v.push(e));
                            assert(distinct_keys(self.blocked_since@)) by {
                                assert forall|a: int, b: int| 0 <= a < b < self.blocked_since@.len() implies
                                    (#[trigger] self.blocked_since@[a]).0@ != (#[trigger] self.blocked_since@[b]).0@ by {
                                    if b < v.len() {
                                        assert(self.blocked_since@[a] == v[a] && self.blocked_since@[b] == v[b]);
                                    } else {
                                        assert(self.blocked_since@[a] == v[a]);
                                    }
                                }
                            }
                        }
                    },
                }
            } else if from_blocked && to_ready {
                let since: u64 = match self.position(c.action_id.as_str()) {
                    Some(i) => {
                        let ghost v = self.blocked_since@;
                        proof {
                            lemma_entries_map_keys(v, c.action_id@);
                            lemma_entries_map_remove(v, i as int);
                        }
                        let entry = self.blocked_since.remove(i);
                        entry.1
                    },
                    None => self.session_start_ns,
                };
                let waited: u64 = if now_ns >= since {
                    now_ns - since
                } else {
                    0
                };
                waits.push(ActionWait { action_id: c.action_id.clone(), wait: waited });
                proof {
                    assert(waits_view(waits@) =~= waits_view(wpre).push((c.action_id@, waited)));
                }
            }
            // Ready actions.
            let ghost rpre = strings_view(ready@);
            if to_ready {
                ready.push(c.action_id.clone());
                proof {
                    assert(strings_view(ready@) =~= rpre.push(c.action_id@));
                }
            }
            proof {
                assert(self.blocked() == blocked_after(b0, cur, now_ns));
                assert(waits_view(waits@) == waits_after(b0, cur, now_ns, self.start()));
                assert(strings_view(ready@) == ready_after(cur));
            }
            n = n + 1;
        }
        proof {
            assert(changes@.take(changes@.len() as int) =~= changes@);
        }
        (ready, waits)
    }
}

// ---------------------------------------------------------------------
// The supervisor's bookkeeping
// ---------------------------------------------------------------------

/// What the supervisor of a run learns, one event at a time.
#[derive(Debug, Clone, Copy, PartialEq, Eq)]
pub enum SupervisorEvent {
    /// A worker reported the outcome of one dispatched action.
    WorkerReported,
    /// The session made this many more actions ready; they were queued.
    ReadyQueued(usize),
    /// A dependency discovery was applied: whether the session answered
    /// with a diagnostic, and how many actions it changed.
    DiscoveryApplied { diagnostic: bool, changed_actions: usize },
}

/// How many actions are known to the supervisor but not fully processed
/// (reported back and the response applied), and how many discoveries
/// genuinely expanded the graph. The run is over when nothing is
/// outstanding.
#[derive(Debug, Clone, Copy, PartialEq, Eq)]
pub struct SupervisorState {
    pub outstanding: usize,
    pub dynamic_expansion_count: usize,
}

impl SupervisorState {
    /// The state before any report: the initially ready actions are
    /// outstanding.
    pub fn new(initial_ready: usize) -> (r: Self)
        ensures
            r.outstanding == initial_ready,
            r.dynamic_expansion_count == 0,
    {
        SupervisorState { outstanding: initial_ready, dynamic_expansion_count: 0 }
    }

    /// Whether every known action has been fully processed.
    pub fn finished(&self) -> (r: bool)
        ensures
            r == (self.outstanding == 0),
    {
        self.outstanding == 0
    }

    /// Takes one event into account: a report settles one outstanding
    /// action; queued ready actions become outstanding; a discovery counts
    /// as an expansion only when it changed actions without a diagnostic
    /// (a duplicate or stale rediscovery changes nothing).
    pub fn step(&mut self, event: SupervisorEvent)
        requires
            event == SupervisorEvent::WorkerReported ==> old(self).outstanding > 0,
            event matches SupervisorEvent::ReadyQueued(n) ==> old(self).outstanding + n <= usize::MAX,
            event is DiscoveryApplied ==> old(self).dynamic_expansion_count < usize::MAX,
        ensures
            match event {
                SupervisorEvent::WorkerReported => *final(self) == (SupervisorState {
                    outstanding: (old(self).outstanding - 1) as usize,
                    dynamic_expansion_count: old(self).dynamic_expansion_count,
                }),
                SupervisorEvent::ReadyQueued(n) => *final(self) == (SupervisorState {
                    outstanding: (old(self).outstanding + n) as usize,
                    dynamic_expansion_count: old(self).dynamic_expansion_count,
                }),
                SupervisorEvent::DiscoveryApplied { diagnostic, changed_actions } => *final(self) == (SupervisorState {
                    outstanding: old(self).outstanding,
                    dynamic_expansion_count: if !diagnostic && changed_actions > 0 {
                        (old(self).dynamic_expansion_count + 1) as usize
                    } else {
                        old(self).dynamic_expansion_count
                    },
                }),
            },
    {
        match event {
            SupervisorEvent::WorkerReported => {
                self.outstanding = self.outstanding - 1;
            },
            SupervisorEvent::ReadyQueued(n) => {
                self.outstanding = self.outstanding + n;
            },
            SupervisorEvent::DiscoveryApplied { diagnostic, changed_actions } => {
                if !diagnostic && changed_actions > 0 {
                    self.dynamic_expansion_count = self.dynamic_expansion_count + 1;
                }
            },
        }
    }
}

/// The outstanding count after a sequence of events.
pub open spec fn outstanding_after(initial: int, events: Seq<SupervisorEvent>) -> int
    decreases events.len(),
{
    if events.len() == 0 {
        initial
    } else {
        let o = outstanding_after(initial, events.drop_last());
        match events.last() {
            SupervisorEvent::WorkerReported => o - 1,
            SupervisorEvent::ReadyQueued(n) => o + n,
            _ => o,
        }
    }
}

/// How many events of the sequence are worker reports.
pub open spec fn reports_in(events: Seq<SupervisorEvent>) -> int
    decreases events.len(),
{
    if events.len() == 0 {
        0
    } else {
        reports_in(events.drop_last()) + if events.last() == SupervisorEvent::WorkerReported {
            1int
        } else {
            0int
        }
    }
}

/// How many actions the sequence queues.
pub open spec fn queued_in(events: Seq<SupervisorEvent>) -> int
    decreases events.len(),
{
    if events.len() == 0 {
        0
    } else {
        queued_in(events.drop_last()) + match events.last() {
            SupervisorEvent::ReadyQueued(n) => n as int,
            _ => 0int,
        }
    }
}

/// The run ends exactly when every action it ever knew of (the initially
/// ready ones and every one queued since) has been reported: the
/// outstanding count is the known actions less the reports.
pub proof fn law_outstanding_counts_unreported_actions(initial: int, events: Seq<SupervisorEvent>)
    ensures
        outstanding_after(initial, events) == initial + queued_in(events) - reports_in(events),
    decreases events.len(),
{
    if events.len() > 0 {
        law_outstanding_counts_unreported_actions(initial, events.drop_last());
    }
}

// ---------------------------------------------------------------------
// Dispatch decisions
// ---------------------------------------------------------------------

/// The kinds of action this executor runs; any other kind arrives with
/// its `Debug` name.
#[derive(Debug, Clone, PartialEq, Eq)]
pub enum DispatchKind {
    LowerSource,
    DiscoverSourceDependencies,
    ValidateIr,
    EvaluateEvidence,
    Unsupported(String),
}

/// Where an action's source comes from, as its descriptor claims.
#[derive(Debug, Clone, PartialEq, Eq)]
pub struct SourceProvenanceFacts {
    pub source_file: String,
    pub source_snapshot_id: String,
}

/// What dispatch reads of an action and its compiler-work descriptor.
#[derive(Debug, Clone, PartialEq, Eq)]
pub struct DispatchFacts {
    pub action_id: String,
    pub kind: DispatchKind,
    /// Whether the action carries a compiler-work descriptor at all.
    pub has_compiler_work: bool,
    pub source_provenance: Option<SourceProvenanceFacts>,
    pub semantic_input_artifact_ids: Vec<String>,
    pub requested_functions: Vec<String>,
}

/// What an action needs before its computation can run.
#[derive(Debug, Clone, PartialEq, Eq)]
pub enum DispatchNeed {
    /// Its source file, whose snapshot must match the claimed one.
    Source { source_file: String, claimed_snapshot_id: String },
    /// The candidate program stored under `input_id`.
    Candidate { input_id: String },
    /// The validated program stored under `input_id`, and the function to
    /// evaluate in it.
    Validated { input_id: String, function_name: String },
}

/// Why an action cannot be dispatched, before anything outside is read,
/// or what it needs otherwise.
pub open spec fn dispatch_refusal(f: DispatchFacts) -> Option<Seq<char>> {
    if !f.has_compiler_work {
        Some("action "@ + debug_str(f.action_id@) + " has no compiler_work"@)
    } else {
        match f.kind {
            DispatchKind::LowerSource | DispatchKind::DiscoverSourceDependencies => if f.source_provenance is None {
                Some("missing source_provenance"@)
            } else {
                None
            },
            DispatchKind::ValidateIr => if f.semantic_input_artifact_ids@.len() == 0 {
                Some("missing semantic_input_artifact_ids"@)
            } else {
                None
            },
            DispatchKind::EvaluateEvidence => if f.semantic_input_artifact_ids@.len() == 0 {
                Some("missing semantic_input_artifact_ids"@)
            } else if f.requested_functions@.len() == 0 {
                Some("missing requested_functions[0]"@)
            } else {
                None
            },
            DispatchKind::Unsupported(name) => Some("unsupported action kind for this executor: "@ + name@),
        }
    }
}

/// The first check of a dispatch: a missing descriptor, a missing
/// provenance, input or function, or an unsupported kind fails the action
/// with its text; otherwise the action needs its source (for lowering and
/// discovery), its candidate program (for validation), or its validated
/// program and first requested function (for evaluation).
pub fn dispatch_need(f: &DispatchFacts) -> (r: Result<DispatchNeed, String>)
    ensures
        match dispatch_refusal(*f) {
            Some(m) => r matches Err(x) && x@ == m,
            None => match f.kind {
                DispatchKind::LowerSource | DispatchKind::DiscoverSourceDependencies => r matches Ok(
                    DispatchNeed::Source { source_file, claimed_snapshot_id },
                ) && source_file@ == f.source_provenance->0.source_file@ && claimed_snapshot_id@
                    == f.source_provenance->0.source_snapshot_id@,
                DispatchKind::ValidateIr => r matches Ok(DispatchNeed::Candidate { input_id }) && input_id@
                    == f.semantic_input_artifact_ids@[0]@,
                _ => r matches Ok(DispatchNeed::Validated { input_id, function_name }) && input_id@
                    == f.semantic_input_artifact_ids@[0]@ && function_name@ == f.requested_functions@[0]@,
            },
        },
{
    if !f.has_compiler_work {
        let mut m = owned("action ");
        let q = debug_quoted(f.action_id.as_str());
        push_str(&mut m, q.as_str());
        push_str(&mut m, " has no compiler_work");
        return Err(m);
    }
    match &f.kind {
        DispatchKind::LowerSource | DispatchKind::DiscoverSourceDependencies => match &f.source_provenance {
            Some(p) => Ok(
                DispatchNeed::Source {
                    source_file: p.source_file.clone(),
                    claimed_snapshot_id: p.source_snapshot_id.clone(),
                },
            ),
            None => Err(owned("missing source_provenance")),
        },
        DispatchKind::ValidateIr => {
            if f.semantic_input_artifact_ids.len() == 0 {
                return Err(owned("missing semantic_input_artifact_ids"));
            }
            Ok(DispatchNeed::Candidate { input_id: f.semantic_input_artifact_ids[0].clone() })
        },
        DispatchKind::EvaluateEvidence => {
            if f.semantic_input_artifact_ids.len() == 0 {
                return Err(owned("missing semantic_input_artifact_ids"));
            }
            if f.requested_functions.len() == 0 {
                return Err(owned("missing requested_functions[0]"));
            }
            Ok(
                DispatchNeed::Validated {
                    input_id: f.semantic_input_artifact_ids[0].clone(),
                    function_name: f.requested_functions[0].clone(),
                },
            )
        },
        DispatchKind::Unsupported(name) => {
            let mut m = owned("unsupported action kind for this executor: ");
            push_str(&mut m, name.as_str());
            Err(m)
        },
    }
}

/// A source whose snapshot differs from the one its descriptor claims is
/// refused, naming both.
pub fn check_source_snapshot(claimed: &str, actual: &str) -> (r: Result<(), String>)
    ensures
        r is Ok <==> claimed@ == actual@,
        r matches Err(m) ==> m@ == "source snapshot mismatch: claimed "@ + debug_str(claimed@) + ", actual "@
            + debug_str(actual@),
{
    if crate::text::str_eq(claimed, actual) {
        return Ok(());
    }
    let mut m = owned("source snapshot mismatch: claimed ");
    let c = debug_quoted(claimed);
    push_str(&mut m, c.as_str());
    push_str(&mut m, ", actual ");
    let a = debug_quoted(actual);
    push_str(&mut m, a.as_str());
    Err(m)
}

/// The failure of an action whose input program is not in the store: a
/// candidate for validation, a validated one for evaluation.
pub fn missing_program_text(validated: bool, input_id: &str) -> (r: String)
    ensures
        r@ == (if validated { "no validated Program for "@ } else { "no candidate Program for "@ }) + debug_str(
            input_id@,
        ),
{
    let mut m = if validated {
        owned("no validated Program for ")
    } else {
        owned("no candidate Program for ")
    };
    let q = debug_quoted(input_id);
    push_str(&mut m, q.as_str());
    m
}

// ---------------------------------------------------------------------
// Worker reports as planning events
// ---------------------------------------------------------------------

/// What a worker reports of one dispatched action.
#[derive(Debug, Clone, PartialEq, Eq)]
pub enum WorkerReport {
    Completed { action_id: String },
    Failed { action_id: String, detail: String },
    /// Completed, having discovered the named functions it depends on.
    Discovered { action_id: String, names: Vec<String> },
}

/// The producer event a report is told to the planner as: the action's
/// artifact was completed, or failed with the worker's detail.
#[derive(Debug, Clone, PartialEq, Eq)]
pub enum ProducerEvent {
    Completed { event_id: String, action_id: String },
    Failed { event_id: String, action_id: String, failure_reason: String },
}

/// The producer event of a report: `evt-completed-<id>` for a completion
/// (with or without discoveries), `evt-failed-<id>` with the detail for a
/// failure. The action is also the artifact it produced.
pub fn producer_event(report: &WorkerReport) -> (r: ProducerEvent)
    ensures
        match report {
            WorkerReport::Failed { action_id, detail } => r matches ProducerEvent::Failed {
                event_id,
                action_id: a,
                failure_reason,
            } && event_id@ == "evt-failed-"@ + action_id@ && a@ == action_id@ && failure_reason@ == detail@,
            WorkerReport::Completed { action_id } => r matches ProducerEvent::Completed { event_id, action_id: a }
                && event_id@ == "evt-completed-"@ + action_id@ && a@ == action_id@,
            WorkerReport::Discovered { action_id, .. } => r matches ProducerEvent::Completed {
                event_id,
                action_id: a,
            } && event_id@ == "evt-completed-"@ + action_id@ && a@ == action_id@,
        },
{
    match report {
        WorkerReport::Failed { action_id, detail } => {
            let mut id = owned("evt-failed-");
            push_str(&mut id, action_id.as_str());
            ProducerEvent::Failed { event_id: id, action_id: action_id.clone(), failure_reason: detail.clone() }
        },
        WorkerReport::Completed { action_id } | WorkerReport::Discovered { action_id, .. } => {
            let mut id = owned("evt-completed-");
            push_str(&mut id, action_id.as_str());
            ProducerEvent::Completed { event_id: id, action_id: action_id.clone() }
        },
    }
}

/// The id of the discovery event that follows a report: only a completion
/// that discovered at least one function is followed by one,
/// `evt-discovered-<id>`.
pub fn discovery_event_id(report: &WorkerReport) -> (r: Option<String>)
    ensures
        match report {
            WorkerReport::Discovered { action_id, names } => if names@.len() > 0 {
                r matches Some(id) && id@ == "evt-discovered-"@ + action_id@
            } else {
                r is None
            },
            _ => r is None,
        },
{
    match report {
        WorkerReport::Discovered { action_id, names } => {
            if names.len() == 0 {
                return None;
            }
            let mut id = owned("evt-discovered-");
            push_str(&mut id, action_id.as_str());
            Some(id)
        },
        _ => None,
    }
}

} // verus!
