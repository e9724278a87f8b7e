use vstd::prelude::*;
use crate::eval::{
    Binding, EvalError, env_view, exec_program, observe_slot, raised, run_stmts, slot_view,
    emit_error,
};
use crate::lexer::{ParseError, chars_of, lex, tokenize};
use crate::parser::{parse, parse_program};
use crate::trace::{
    EventKind, Note, TraceCollector, TraceEvent, Tracer, TracerError, TracerKind, TracerState,
    kind_of, stamp,
};
use crate::value::Value;

verus! {

/// Why a run failed.
#[derive(Clone, Copy, Debug, PartialEq, Eq, Structural)]
pub enum RunError {
    Parse(ParseError),
    Eval(EvalError),
}

/// What a run of `src` on the bindings `env` returns, the steps it reports,
/// and the bindings afterwards. A malformed text reports one error step and
/// changes no binding.
pub open spec fn outcome(env: Seq<(Seq<char>, Value)>, src: Seq<char>) -> (
    Result<Value, RunError>,
    Seq<Note>,
    Seq<(Seq<char>, Value)>,
) {
    match lex(src) {
        Err(e) => (Err(RunError::Parse(e)), seq![raised(None)], env),
        Ok(toks) => match parse(toks, src.len()) {
            Err(e) => (Err(RunError::Parse(e)), seq![raised(None)], env),
            Ok(stmts) => {
                let (r, ns, env2) = run_stmts(env, stmts, 0, Value::Unit);
                match r {
                    Ok(v) => (Ok(v), ns, env2),
                    Err(e) => (Err(RunError::Eval(e)), ns, env2),
                }
            },
        },
    }
}

/// The steps that a run of `src` on the bindings `env` reports, in order.
pub open spec fn trace(env: Seq<(Seq<char>, Value)>, src: Seq<char>) -> Seq<Note> {
    outcome(env, src).1
}

/// The state of an interpreter: its bindings and what its tracer slot holds.
pub struct InterpreterState {
    pub env: Seq<(Seq<char>, Value)>,
    pub tracer: Option<TracerState>,
}

/// What a run of `src` returns, and the interpreter's state afterwards.
pub open spec fn run_spec(i: InterpreterState, src: Seq<char>) -> (
    Result<Value, RunError>,
    InterpreterState,
) {
    let (r, notes, env2) = outcome(i.env, src);
    (r, InterpreterState { env: env2, tracer: observe_slot(i.tracer, notes) })
}

/// An interpreter: bindings that persist across runs, and a slot that holds
/// at most one tracer.
pub struct Interpreter {
    env: Vec<Binding>,
    tracer: Option<Tracer>,
}

impl View for Interpreter {
    type V = InterpreterState;

    closed spec fn view(&self) -> InterpreterState {
        InterpreterState { env: env_view(self.env@), tracer: slot_view(self.tracer) }
    }
}

impl Interpreter {
    /// An interpreter with no bindings and no tracer.
    pub fn new() -> (r: Interpreter)
        ensures
            r@.env == Seq::<(Seq<char>, Value)>::empty(),
            r@.tracer is None,
    {
        let r = Interpreter { env: Vec::new(), tracer: None };
        assert(r@.env =~= Seq::<(Seq<char>, Value)>::empty());
        r
    }

    /// Attaches a tracer; one already attached is dropped.
    pub fn set_tracer(&mut self, tracer: Tracer)
        ensures
            final(self)@.env == old(self)@.env,
            final(self)@.tracer == Some(tracer@),
    {
        self.tracer = Some(tracer);
    }

    /// Detaches the tracer and hands it back; `None` when none is attached.
    pub fn take_tracer(&mut self) -> (r: Option<Tracer>)
        ensures
            final(self)@.env == old(self)@.env,
            final(self)@.tracer is None,
            slot_view(r) == old(self)@.tracer,
    {
        self.tracer.take()
    }

    /// Whether a tracer is attached.
    pub fn has_tracer(&self) -> (r: bool)
        ensures
            r == self@.tracer is Some,
    {
        self.tracer.is_some()
    }

    /// Detaches the tracer and recovers it as a collector. When none is
    /// attached, or the one attached is of another type, nothing changes.
    pub fn take_collector(&mut self) -> (r: Result<TraceCollector, TracerError>)
        ensures
            match old(self)@.tracer {
                None => r == Err::<TraceCollector, TracerError>(TracerError::TracerAbsent)
                    && final(self)@ == old(self)@,
                Some(TracerState::Collector(s)) => r is Ok && r->Ok_0@ == s && final(self)@.env
                    == old(self)@.env && final(self)@.tracer is None,
                Some(t) => r == Err::<TraceCollector, TracerError>(
                    TracerError::TracerTypeMismatch {
                        expected: TracerKind::Collector,
                        found: kind_of(t),
                    },
                ) && final(self)@ == old(self)@,
            },
    {
        match self.tracer.take() {
            None => Err(TracerError::TracerAbsent),
            Some(t) => {
                if matches!(t, Tracer::Collector(_)) {
                    t.into_collector()
                } else {
                    let found = t.kind();
                    self.tracer = Some(t);
                    Err(TracerError::TracerTypeMismatch { expected: TracerKind::Collector, found })
                }
            },
        }
    }

    /// Runs a program text on this interpreter's bindings, notifying the
    /// attached tracer, if any, of each step.
    pub fn run(&mut self, source: &str) -> (r: Result<Value, RunError>)
        ensures
            (r, final(self)@) == run_spec(old(self)@, source@),
    {
        let chars = chars_of(source);
        let toks = match tokenize(&chars) {
            Ok(t) => t,
            Err(e) => {
                emit_error(&mut self.tracer);
                return Err(RunError::Parse(e));
            },
        };
        let stmts = match parse_program(&toks, chars.len()) {
            Ok(s) => s,
            Err(e) => {
                emit_error(&mut self.tracer);
                return Err(RunError::Parse(e));
            },
        };
        match exec_program(&mut self.env, &stmts, &mut self.tracer) {
            Ok(v) => Ok(v),
            Err(e) => Err(RunError::Eval(e)),
        }
    }
}

/// Why `interpret_code` returned no events.
#[derive(Clone, Copy, Debug, PartialEq, Eq, Structural)]
pub enum InterpretError {
    Run(RunError),
    Tracer(TracerError),
}

/// Runs a program on a fresh interpreter with a collector attached and
/// returns the events collected.
pub fn interpret_code(input: &str) -> (r: Result<Vec<TraceEvent>, InterpretError>)
    ensures
        ({
            let (res, notes, _) = outcome(Seq::empty(), input@);
            match res {
                Ok(_) => r is Ok && r->Ok_0@.map_values(|e: TraceEvent| e.view()) == stamp(
                    notes,
                    0,
                ),
                Err(e) => r == Err::<Vec<TraceEvent>, InterpretError>(InterpretError::Run(e)),
            }
        }),
{
    let mut interpreter = Interpreter::new();
    interpreter.set_tracer(Tracer::Collector(TraceCollector::new()));
    let ghost empty = Seq::<(Seq<char>, Value)>::empty();
    assert(interpreter@.env == empty);
    match interpreter.run(input) {
        Ok(_) => match interpreter.take_collector() {
            Ok(c) => {
                assert(Seq::<(nat, Note)>::empty() + stamp(outcome(empty, input@).1, 0) =~= stamp(
                    outcome(empty, input@).1,
                    0,
                ));
                Ok(c.events_copy())
            },
            Err(e) => Err(InterpretError::Tracer(e)),
        },
        Err(e) => Err(InterpretError::Run(e)),
    }
}

/// Tracing is a side channel: on the same bindings and text, a run returns
/// the same result and leaves the same bindings whatever tracer is attached,
/// and a run with no tracer attached notifies nothing.
pub proof fn lemma_tracer_does_not_change_result(
    a: InterpreterState,
    b: InterpreterState,
    src: Seq<char>,
)
    requires
        a.env == b.env,
    ensures
        run_spec(a, src).0 == run_spec(b, src).0,
        run_spec(a, src).1.env == run_spec(b, src).1.env,
        a.tracer is None ==> run_spec(a, src).1.tracer is None,
{
}

/// A collector attached during a run gains one event for each step the run
/// reports, in execution order, numbered on from the events it held.
pub proof fn lemma_collector_records_each_step(
    i: InterpreterState,
    src: Seq<char>,
    s: Seq<(nat, Note)>,
)
    requires
        i.tracer == Some(TracerState::Collector(s)),
    ensures
        ({
            let n = trace(i.env, src);
            let t = run_spec(i, src).1.tracer;
            &&& t is Some && t->Some_0 is Collector
            &&& t->Some_0->Collector_0.len() == s.len() + n.len()
            &&& t->Some_0->Collector_0.subrange(0, s.len() as int) == s
            &&& forall|k: int|
                0 <= k < n.len() ==> #[trigger] t->Some_0->Collector_0[s.len() + k] == (
                    (s.len() + k) as nat,
                    n[k],
                )
        }),
{
    let n = trace(i.env, src);
    let t = run_spec(i, src).1.tracer->Some_0->Collector_0;
    assert(t == s + stamp(n, s.len()));
    assert(t.subrange(0, s.len() as int) =~= s);
    assert forall|k: int| 0 <= k < n.len() implies #[trigger] t[s.len() + k] == (
        (s.len() + k) as nat,
        n[k],
    ) by {
        assert(t[s.len() + k] == stamp(n, s.len())[k]);
    }
}

/// A fresh collector attached before a run holds afterwards exactly that
/// run's steps, numbered from zero, whatever was collected before.
pub proof fn lemma_fresh_collector_sees_one_run(i: InterpreterState, src: Seq<char>)
    ensures
        run_spec(
            InterpreterState {
                env: i.env,
                tracer: Some(TracerState::Collector(Seq::empty())),
            },
            src,
        ).1.tracer == Some(TracerState::Collector(stamp(trace(i.env, src), 0))),
{
    assert(Seq::<(nat, Note)>::empty() + stamp(trace(i.env, src), 0) =~= stamp(
        trace(i.env, src),
        0,
    ));
}

} // verus!
