use mimble::eval::{EvalError, EvalErrorKind};
use mimble::interpreter::{interpret_code, InterpretError, Interpreter, RunError};
use mimble::lexer::{ParseError, ParseErrorKind};
use mimble::trace::{EventKind, StepCounter, TraceCollector, TraceEvent, Tracer, TracerError, TracerKind};
use mimble::value::Value;

fn chars(s: &str) -> Vec<char> {
    s.chars().collect()
}

fn run_collecting(src: &str) -> (Result<Value, RunError>, Vec<TraceEvent>) {
    let mut it = Interpreter::new();
    it.set_tracer(Tracer::Collector(TraceCollector::new()));
    let r = it.run(src);
    let c = it.take_collector().expect("collector attached");
    (r, c.events_copy())
}

fn run_plain(src: &str) -> Result<Value, RunError> {
    Interpreter::new().run(src)
}

#[test]
fn one_plus_two_yields_three_with_snapshot() {
    let (r, events) = run_collecting("1 + 2");
    assert_eq!(r, Ok(Value::Int(3)));
    assert!(events.iter().any(|e| e.value == Some(Value::Int(3))));
    assert_eq!(events.len(), 3);
    assert_eq!(events[0].value, Some(Value::Int(1)));
    assert_eq!(events[1].value, Some(Value::Int(2)));
    assert_eq!(events[2].kind, EventKind::ValueProduced);
}

#[test]
fn unbound_variable_is_an_eval_error_with_its_event() {
    let mut it = Interpreter::new();
    it.set_tracer(Tracer::Collector(TraceCollector::new()));
    let r = it.run("x");
    assert_eq!(
        r,
        Err(RunError::Eval(EvalError { stmt: 0, kind: EvalErrorKind::UnboundVariable }))
    );
    let t = it.take_tracer().expect("tracer attached");
    let c = t.into_collector().expect("a collector");
    let events = c.get_events();
    assert_eq!(events.len(), 1);
    assert_eq!(events[0].kind, EventKind::ErrorRaised);
    assert_eq!(events[0].label, Some(chars("x")));
}

#[test]
fn events_before_a_fault_stay_recorded() {
    let (r, events) = run_collecting("let y = 4; y + x");
    assert_eq!(
        r,
        Err(RunError::Eval(EvalError { stmt: 1, kind: EvalErrorKind::UnboundVariable }))
    );
    let kinds: Vec<EventKind> = events.iter().map(|e| e.kind).collect();
    assert_eq!(
        kinds,
        vec![
            EventKind::ValueProduced,
            EventKind::BindingCreated,
            EventKind::ValueProduced,
            EventKind::ErrorRaised
        ]
    );
    assert_eq!(events[1].label, Some(chars("y")));
    assert_eq!(events[1].value, Some(Value::Int(4)));
}

#[test]
fn take_tracer_on_fresh_interpreter_is_none() {
    let mut it = Interpreter::new();
    assert!(it.take_tracer().is_none());
    assert!(!it.has_tracer());
    assert_eq!(it.run("2 * 5"), Ok(Value::Int(10)));
    assert!(it.take_tracer().is_none());
}

#[test]
fn second_take_returns_none() {
    let mut it = Interpreter::new();
    it.set_tracer(Tracer::Collector(TraceCollector::new()));
    assert!(it.take_tracer().is_some());
    assert!(it.take_tracer().is_none());
    assert_eq!(it.take_collector().err(), Some(TracerError::TracerAbsent));
}

#[test]
fn recovering_collector_from_counter_is_a_mismatch() {
    let t = Tracer::Counter(StepCounter::new());
    assert_eq!(t.kind(), TracerKind::Counter);
    assert_eq!(
        t.into_collector().err(),
        Some(TracerError::TracerTypeMismatch {
            expected: TracerKind::Collector,
            found: TracerKind::Counter
        })
    );
    let t = Tracer::Collector(TraceCollector::new());
    assert_eq!(
        t.into_counter().err(),
        Some(TracerError::TracerTypeMismatch {
            expected: TracerKind::Counter,
            found: TracerKind::Collector
        })
    );
}

#[test]
fn take_collector_mismatch_keeps_the_tracer() {
    let mut it = Interpreter::new();
    it.set_tracer(Tracer::Counter(StepCounter::new()));
    assert_eq!(it.run("1 + 2 * 3"), Ok(Value::Int(7)));
    assert_eq!(
        it.take_collector().err(),
        Some(TracerError::TracerTypeMismatch {
            expected: TracerKind::Collector,
            found: TracerKind::Counter
        })
    );
    let counter = it.take_tracer().unwrap().into_counter().unwrap();
    assert_eq!(counter.count(), 5);
}

#[test]
fn fresh_collector_after_take_resets_events() {
    let mut it = Interpreter::new();
    it.set_tracer(Tracer::Collector(TraceCollector::new()));
    assert_eq!(it.run("let a = 1; let b = 2; a + b"), Ok(Value::Int(3)));
    let first = it.take_collector().unwrap();
    assert_eq!(first.get_events().len(), 7);
    it.set_tracer(Tracer::Collector(TraceCollector::new()));
    assert_eq!(it.run("a"), Ok(Value::Int(1)));
    let second = it.take_collector().unwrap();
    let events = second.get_events();
    assert_eq!(events.len(), 1);
    assert_eq!(events[0].step, 0);
    assert_eq!(events[0].value, Some(Value::Int(1)));
}

#[test]
fn same_result_with_and_without_tracer() {
    let programs = [
        "1 + 2",
        "x",
        "let x = 3; x * x - 1",
        "1 / 0",
        "(1 + 2",
        "true == (1 < 2)",
        "",
        "-9223372036854775807 - 2",
    ];
    for p in programs.iter() {
        let (traced, _) = run_collecting(p);
        assert_eq!(traced, run_plain(p), "program {:?}", p);
        let mut it = Interpreter::new();
        it.set_tracer(Tracer::Counter(StepCounter::new()));
        assert_eq!(it.run(p), run_plain(p), "program {:?}", p);
    }
}

#[test]
fn events_are_numbered_in_execution_order() {
    let (_, events) = run_collecting("let v = (2 + 3) * 4; v - 1");
    let steps: Vec<usize> = events.iter().map(|e| e.step).collect();
    assert_eq!(steps, (0..events.len()).collect::<Vec<usize>>());
    let values: Vec<Option<Value>> = events.iter().map(|e| e.value).collect();
    assert_eq!(
        values,
        vec![
            Some(Value::Int(2)),
            Some(Value::Int(3)),
            Some(Value::Int(5)),
            Some(Value::Int(4)),
            Some(Value::Int(20)),
            Some(Value::Int(20)),
            Some(Value::Int(20)),
            Some(Value::Int(1)),
            Some(Value::Int(19)),
        ]
    );
}

#[test]
fn collector_keeps_events_across_runs() {
    let mut it = Interpreter::new();
    it.set_tracer(Tracer::Collector(TraceCollector::new()));
    assert_eq!(it.run("1"), Ok(Value::Int(1)));
    assert_eq!(it.run("2"), Ok(Value::Int(2)));
    let c = it.take_collector().unwrap();
    let steps: Vec<usize> = c.get_events().iter().map(|e| e.step).collect();
    assert_eq!(steps, vec![0, 1]);
}

#[test]
fn set_tracer_replaces_the_attached_one() {
    let mut it = Interpreter::new();
    it.set_tracer(Tracer::Counter(StepCounter::new()));
    it.set_tracer(Tracer::Collector(TraceCollector::new()));
    assert_eq!(it.run("4"), Ok(Value::Int(4)));
    assert_eq!(it.take_collector().unwrap().get_events().len(), 1);
}

#[test]
fn precedence_and_grouping() {
    assert_eq!(run_plain("1 + 2 * 3"), Ok(Value::Int(7)));
    assert_eq!(run_plain("(1 + 2) * 3"), Ok(Value::Int(9)));
    assert_eq!(run_plain("10 - 3 - 2"), Ok(Value::Int(5)));
    assert_eq!(run_plain("100 / 10 / 5"), Ok(Value::Int(2)));
    assert_eq!(run_plain("--4"), Ok(Value::Int(4)));
    assert_eq!(run_plain("2 * -3"), Ok(Value::Int(-6)));
    assert_eq!(run_plain("1 + 2 == 3"), Ok(Value::Bool(true)));
    assert_eq!(run_plain("1 < 2 == true"), Ok(Value::Bool(true)));
}

#[test]
fn division_truncates_toward_zero() {
    assert_eq!(run_plain("-7 / 2"), Ok(Value::Int(-3)));
    assert_eq!(run_plain("-7 % 2"), Ok(Value::Int(-1)));
    assert_eq!(run_plain("7 % -2"), Ok(Value::Int(1)));
}

#[test]
fn comparisons() {
    assert_eq!(run_plain("3 <= 3"), Ok(Value::Bool(true)));
    assert_eq!(run_plain("3 > 4"), Ok(Value::Bool(false)));
    assert_eq!(run_plain("4 >= 5"), Ok(Value::Bool(false)));
    assert_eq!(run_plain("1 != 2"), Ok(Value::Bool(true)));
    assert_eq!(run_plain("true == false"), Ok(Value::Bool(false)));
    assert_eq!(run_plain("let u = 1; u == 1"), Ok(Value::Bool(true)));
}

#[test]
fn empty_program_and_let_yield_unit() {
    assert_eq!(run_plain(""), Ok(Value::Unit));
    assert_eq!(run_plain(" ;; "), Ok(Value::Unit));
    assert_eq!(run_plain("let x = 5"), Ok(Value::Unit));
    assert_eq!(run_plain("let x = 5;"), Ok(Value::Unit));
}

#[test]
fn bindings_persist_and_shadow() {
    let mut it = Interpreter::new();
    assert_eq!(it.run("let x = 5"), Ok(Value::Unit));
    assert_eq!(it.run("x + 1"), Ok(Value::Int(6)));
    assert_eq!(it.run("let x = x * 2; x"), Ok(Value::Int(10)));
    assert_eq!(it.run("let flag = x > 3; flag"), Ok(Value::Bool(true)));
}

#[test]
fn eval_error_kinds() {
    assert_eq!(
        run_plain("1 / 0"),
        Err(RunError::Eval(EvalError { stmt: 0, kind: EvalErrorKind::DivisionByZero }))
    );
    assert_eq!(
        run_plain("1; 5 % 0"),
        Err(RunError::Eval(EvalError { stmt: 1, kind: EvalErrorKind::DivisionByZero }))
    );
    assert_eq!(
        run_plain("9223372036854775807 + 1"),
        Err(RunError::Eval(EvalError { stmt: 0, kind: EvalErrorKind::Overflow }))
    );
    assert_eq!(
        run_plain("-9223372036854775807 - 1 - 1"),
        Err(RunError::Eval(EvalError { stmt: 0, kind: EvalErrorKind::Overflow }))
    );
    assert_eq!(
        run_plain("1 + true"),
        Err(RunError::Eval(EvalError { stmt: 0, kind: EvalErrorKind::TypeMismatch }))
    );
    assert_eq!(
        run_plain("-false"),
        Err(RunError::Eval(EvalError { stmt: 0, kind: EvalErrorKind::TypeMismatch }))
    );
    assert_eq!(
        run_plain("1 == true"),
        Err(RunError::Eval(EvalError { stmt: 0, kind: EvalErrorKind::TypeMismatch }))
    );
}

#[test]
fn largest_literal_is_accepted() {
    assert_eq!(run_plain("9223372036854775807"), Ok(Value::Int(i64::MAX)));
    assert_eq!(run_plain("-9223372036854775807 - 1"), Ok(Value::Int(i64::MIN)));
}

#[test]
fn parse_error_kinds() {
    assert_eq!(
        run_plain("9223372036854775808"),
        Err(RunError::Parse(ParseError { pos: 0, kind: ParseErrorKind::NumberTooLarge }))
    );
    assert_eq!(
        run_plain("1 $ 2"),
        Err(RunError::Parse(ParseError { pos: 2, kind: ParseErrorKind::UnexpectedChar }))
    );
    assert_eq!(
        run_plain("1 +"),
        Err(RunError::Parse(ParseError { pos: 3, kind: ParseErrorKind::UnexpectedEnd }))
    );
    assert_eq!(
        run_plain("(1 + 2"),
        Err(RunError::Parse(ParseError { pos: 6, kind: ParseErrorKind::UnexpectedEnd }))
    );
    assert_eq!(
        run_plain("let = 3"),
        Err(RunError::Parse(ParseError { pos: 4, kind: ParseErrorKind::UnexpectedToken }))
    );
    assert_eq!(
        run_plain("1 2"),
        Err(RunError::Parse(ParseError { pos: 2, kind: ParseErrorKind::UnexpectedToken }))
    );
    assert_eq!(
        run_plain("a ! b"),
        Err(RunError::Parse(ParseError { pos: 2, kind: ParseErrorKind::UnexpectedChar }))
    );
}

#[test]
fn parse_error_is_traced_and_binds_nothing() {
    let mut it = Interpreter::new();
    it.set_tracer(Tracer::Collector(TraceCollector::new()));
    assert!(it.run("let z = 1; )").is_err());
    let c = it.take_collector().unwrap();
    assert_eq!(c.get_events().len(), 1);
    assert_eq!(c.get_events()[0].kind, EventKind::ErrorRaised);
    assert!(it.run("z").is_err());
}

#[test]
fn counter_counts_steps() {
    let mut it = Interpreter::new();
    it.set_tracer(Tracer::Counter(StepCounter::new()));
    assert_eq!(it.run("let q = 2; q * 3"), Ok(Value::Int(6)));
    let c = it.take_tracer().unwrap().into_counter().unwrap();
    assert_eq!(c.count(), 5);
}

#[test]
fn interpret_code_returns_events() {
    let events = interpret_code("1 + 2").unwrap();
    assert_eq!(events.len(), 3);
    assert_eq!(events[2].value, Some(Value::Int(3)));
    assert_eq!(
        interpret_code("x").err(),
        Some(InterpretError::Run(RunError::Eval(EvalError {
            stmt: 0,
            kind: EvalErrorKind::UnboundVariable
        })))
    );
}
