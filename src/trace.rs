use vstd::prelude::*;
use crate::value::{Value, copy_chars};

verus! {

/// What kind of execution step an event records.
#[derive(Clone, Copy, Debug, PartialEq, Eq, Structural)]
pub enum EventKind {
    /// An expression produced a value.
    ValueProduced,
    /// A `let` statement bound a name.
    BindingCreated,
    /// A parse or evaluation error stopped the run.
    ErrorRaised,
}

/// What the evaluator reports at one step, before the tracer numbers it.
pub struct Note {
    pub kind: EventKind,
    pub value: Option<Value>,
    pub label: Option<Seq<char>>,
}

pub open spec fn label_view(l: Option<Vec<char>>) -> Option<Seq<char>> {
    match l {
        Some(v) => Some(v@),
        None => None,
    }
}

/// One recorded execution step.
#[derive(Debug)]
pub struct TraceEvent {
    /// The position of the event in its collector's sequence.
    pub step: usize,
    pub kind: EventKind,
    /// A snapshot of the value involved, if any.
    pub value: Option<Value>,
    /// The name involved, if any.
    pub label: Option<Vec<char>>,
}

impl TraceEvent {
    pub open spec fn note(&self) -> Note {
        Note { kind: self.kind, value: self.value, label: label_view(self.label) }
    }

    pub open spec fn view(&self) -> (nat, Note) {
        (self.step as nat, self.note())
    }

    pub fn clone_event(&self) -> (r: TraceEvent)
        ensures
            r.view() == self.view(),
    {
        let label = match &self.label {
            Some(l) => Some(copy_chars(l)),
            None => None,
        };
        TraceEvent { step: self.step, kind: self.kind, value: self.value, label }
    }
}

/// Numbers notes as consecutive steps, the first one `base`.
pub open spec fn stamp(notes: Seq<Note>, base: nat) -> Seq<(nat, Note)> {
    Seq::new(notes.len(), |i: int| ((base + i) as nat, notes[i]))
}

/// A tracer that keeps every event it is notified of, in order.
pub struct TraceCollector {
    events: Vec<TraceEvent>,
}

impl View for TraceCollector {
    type V = Seq<(nat, Note)>;

    closed spec fn view(&self) -> Seq<(nat, Note)> {
        self.events@.map_values(|e: TraceEvent| e.view())
    }
}

impl TraceCollector {
    pub fn new() -> (r: TraceCollector)
        ensures
            r@ == Seq::<(nat, Note)>::empty(),
    {
        let r = TraceCollector { events: Vec::new() };
        assert(r@ =~= Seq::<(nat, Note)>::empty());
        r
    }

    /// Appends an event, numbered by its position.
    pub fn notify(&mut self, kind: EventKind, value: Option<Value>, label: Option<Vec<char>>)
        ensures
            final(self)@ == old(self)@.push(
                (old(self)@.len(), Note { kind, value, label: label_view(label) }),
            ),
    {
        let step = self.events.len();
        self.events.push(TraceEvent { step, kind, value, label });
        assert(self@ =~= old(self)@.push(
            (old(self)@.len(), Note { kind, value, label: label_view(label) }),
        ));
    }

    /// The events collected so far, in the order they were notified.
    pub fn get_events(&self) -> (r: &Vec<TraceEvent>)
        ensures
            r@.map_values(|e: TraceEvent| e.view()) == self@,
    {
        &self.events
    }

    /// A copy of the events collected so far.
    pub fn events_copy(&self) -> (r: Vec<TraceEvent>)
        ensures
            r@.map_values(|e: TraceEvent| e.view()) == self@,
    {
        let mut r: Vec<TraceEvent> = Vec::new();
        let mut i: usize = 0;
        while i < self.events.len()
            invariant
                i <= self.events@.len(),
                r@.map_values(|e: TraceEvent| e.view()) =~= self@.subrange(0, i as int),
            decreases self.events@.len() - i,
        {
            let ghost before = r@.map_values(|e: TraceEvent| e.view());
            r.push(self.events[i].clone_event());
            assert(r@.map_values(|e: TraceEvent| e.view()) =~= before.push(self.events@[i as int].view()));
            assert(self@.subrange(0, i + 1) =~= self@.subrange(0, i as int).push(self.events@[i as int].view()));
            i = i + 1;
        }
        assert(self@.subrange(0, self@.len() as int) =~= self@);
        r
    }
}

/// A tracer that only counts the steps it is notified of.
pub struct StepCounter {
    count: u64,
}

impl StepCounter {
    pub closed spec fn spec_count(&self) -> u64 {
        self.count
    }

    pub fn new() -> (r: StepCounter)
        ensures
            r.spec_count() == 0,
    {
        StepCounter { count: 0 }
    }

    /// Counts one step; the count stops at `u64::MAX`.
    pub fn notify(&mut self)
        ensures
            final(self).spec_count() == counted(old(self).spec_count(), 1),
    {
        self.count = self.count.saturating_add(1);
    }

    pub fn count(&self) -> (r: u64)
        ensures
            r == self.spec_count(),
    {
        self.count
    }
}

/// A count of `n` more steps, held at `u64::MAX`.
pub open spec fn counted(c: u64, n: nat) -> u64 {
    if c + n > u64::MAX { u64::MAX } else { (c + n) as u64 }
}

/// The concrete tracer types, used as the type hint of a checked recovery.
#[derive(Clone, Copy, Debug, PartialEq, Eq, Structural)]
pub enum TracerKind {
    Collector,
    Counter,
}

/// A tracer held behind the interpreter's tracer slot. The evaluator only
/// notifies it; the concrete tracer is recovered by a checked conversion.
pub enum Tracer {
    Collector(TraceCollector),
    Counter(StepCounter),
}

/// What a tracer has observed, by concrete type.
pub enum TracerState {
    Collector(Seq<(nat, Note)>),
    Counter(u64),
}

/// Why a tracer could not be handed back.
#[derive(Clone, Copy, Debug, PartialEq, Eq, Structural)]
pub enum TracerError {
    /// The interpreter holds no tracer.
    TracerAbsent,
    /// The tracer held is not of the type asked for.
    TracerTypeMismatch { expected: TracerKind, found: TracerKind },
}

/// The state of a tracer after it has been notified of `notes` in order.
pub open spec fn observe(t: TracerState, notes: Seq<Note>) -> TracerState {
    match t {
        TracerState::Collector(s) => TracerState::Collector(s + stamp(notes, s.len())),
        TracerState::Counter(c) => TracerState::Counter(counted(c, notes.len())),
    }
}

impl View for Tracer {
    type V = TracerState;

    open spec fn view(&self) -> TracerState {
        match self {
            Tracer::Collector(c) => TracerState::Collector(c@),
            Tracer::Counter(c) => TracerState::Counter(c.spec_count()),
        }
    }
}

pub open spec fn kind_of(t: TracerState) -> TracerKind {
    match t {
        TracerState::Collector(_) => TracerKind::Collector,
        TracerState::Counter(_) => TracerKind::Counter,
    }
}

impl Tracer {
    /// Passes one step to the concrete tracer.
    pub fn notify(&mut self, kind: EventKind, value: Option<Value>, label: Option<Vec<char>>)
        ensures
            final(self)@ == observe(
                old(self)@,
                seq![Note { kind, value, label: label_view(label) }],
            ),
    {
        let ghost n = Note { kind, value, label: label_view(label) };
        match self {
            Tracer::Collector(c) => {
                c.notify(kind, value, label);
                assert(stamp(seq![n], old(self)@->Collector_0.len()) =~= seq![
                    (old(self)@->Collector_0.len(), n),
                ]);
                assert(final(self)@->Collector_0 =~= old(self)@->Collector_0 + stamp(
                    seq![n],
                    old(self)@->Collector_0.len(),
                ));
            },
            Tracer::Counter(c) => {
                c.notify();
            },
        }
    }

    /// The concrete type of this tracer.
    pub fn kind(&self) -> (r: TracerKind)
        ensures
            r == kind_of(self@),
    {
        match self {
            Tracer::Collector(_) => TracerKind::Collector,
            Tracer::Counter(_) => TracerKind::Counter,
        }
    }

    /// Recovers the collector, or reports that this tracer is of another type.
    pub fn into_collector(self) -> (r: Result<TraceCollector, TracerError>)
        ensures
            match self@ {
                TracerState::Collector(s) => r is Ok && r->Ok_0@ == s,
                TracerState::Counter(_) => r == Err::<TraceCollector, TracerError>(
                    TracerError::TracerTypeMismatch {
                        expected: TracerKind::Collector,
                        found: TracerKind::Counter,
                    },
                ),
            },
    {
        match self {
            Tracer::Collector(c) => Ok(c),
            Tracer::Counter(_) => Err(
                TracerError::TracerTypeMismatch {
                    expected: TracerKind::Collector,
                    found: TracerKind::Counter,
                },
            ),
        }
    }

    /// Recovers the step counter, or reports that this tracer is of another type.
    pub fn into_counter(self) -> (r: Result<StepCounter, TracerError>)
        ensures
            match self@ {
                TracerState::Counter(c) => r is Ok && r->Ok_0.spec_count() == c,
                TracerState::Collector(_) => r == Err::<StepCounter, TracerError>(
                    TracerError::TracerTypeMismatch {
                        expected: TracerKind::Counter,
                        found: TracerKind::Collector,
                    },
                ),
            },
    {
        match self {
            Tracer::Counter(c) => Ok(c),
            Tracer::Collector(_) => Err(
                TracerError::TracerTypeMismatch {
                    expected: TracerKind::Counter,
                    found: TracerKind::Collector,
                },
            ),
        }
    }
}

} // verus!
