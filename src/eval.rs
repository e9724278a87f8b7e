use vstd::prelude::*;
use crate::ast::{Expr, SExpr, SStmt, Stmt, stmts_view};
use crate::lexer::BinOp;
use crate::trace::{EventKind, Note, Tracer, TracerState, observe, stamp, counted};
use crate::value::{Value, chars_equal, copy_chars};

verus! {

/// Why evaluation stopped.
#[derive(Clone, Copy, Debug, PartialEq, Eq, Structural)]
pub enum EvalErrorKind {
    UnboundVariable,
    TypeMismatch,
    DivisionByZero,
    Overflow,
}

/// A runtime fault, with the index of the statement where it happened.
#[derive(Clone, Copy, Debug, PartialEq, Eq, Structural)]
pub struct EvalError {
    pub stmt: usize,
    pub kind: EvalErrorKind,
}

/// A name bound to a value.
pub struct Binding {
    pub name: Vec<char>,
    pub value: Value,
}

pub open spec fn env_view(env: Seq<Binding>) -> Seq<(Seq<char>, Value)> {
    env.map_values(|b: Binding| (b.name@, b.value))
}

/// The value of the latest binding of `name`.
pub open spec fn lookup(env: Seq<(Seq<char>, Value)>, name: Seq<char>) -> Option<Value>
    decreases env.len(),
{
    if env.len() == 0 {
        None
    } else if env.last().0 == name {
        Some(env.last().1)
    } else {
        lookup(env.drop_last(), name)
    }
}

pub open spec fn produced(v: Value) -> Note {
    Note { kind: EventKind::ValueProduced, value: Some(v), label: None }
}

pub open spec fn raised(label: Option<Seq<char>>) -> Note {
    Note { kind: EventKind::ErrorRaised, value: None, label }
}

pub open spec fn bound(name: Seq<char>, v: Value) -> Note {
    Note { kind: EventKind::BindingCreated, value: Some(v), label: Some(name) }
}

/// The result of a unary minus.
pub open spec fn negate(v: Value) -> Result<Value, EvalErrorKind> {
    match v {
        Value::Int(a) => match 0i64.checked_sub(a) {
            Some(x) => Ok(Value::Int(x)),
            None => Err(EvalErrorKind::Overflow),
        },
        _ => Err(EvalErrorKind::TypeMismatch),
    }
}

/// Integer arithmetic as Rust's checked operations do it.
pub open spec fn arith(op: BinOp, a: i64, b: i64) -> Result<Value, EvalErrorKind> {
    let r = match op {
        BinOp::Add => a.checked_add(b),
        BinOp::Sub => a.checked_sub(b),
        BinOp::Mul => a.checked_mul(b),
        BinOp::Div => a.checked_div(b),
        _ => a.checked_rem(b),
    };
    if (op is Div || op is Rem) && b == 0 {
        Err(EvalErrorKind::DivisionByZero)
    } else {
        match r {
            Some(x) => Ok(Value::Int(x)),
            None => Err(EvalErrorKind::Overflow),
        }
    }
}

/// The result of a binary operator on two values.
pub open spec fn apply(op: BinOp, a: Value, b: Value) -> Result<Value, EvalErrorKind> {
    match op {
        BinOp::Eq | BinOp::Ne => match (a, b) {
            (Value::Int(_), Value::Int(_)) | (Value::Bool(_), Value::Bool(_)) | (
                Value::Unit,
                Value::Unit,
            ) => Ok(Value::Bool((a == b) == (op is Eq))),
            _ => Err(EvalErrorKind::TypeMismatch),
        },
        _ => match (a, b) {
            (Value::Int(x), Value::Int(y)) => match op {
                BinOp::Lt => Ok(Value::Bool(x < y)),
                BinOp::Le => Ok(Value::Bool(x <= y)),
                BinOp::Gt => Ok(Value::Bool(x > y)),
                BinOp::Ge => Ok(Value::Bool(x >= y)),
                _ => arith(op, x, y),
            },
            _ => Err(EvalErrorKind::TypeMismatch),
        },
    }
}

/// The value of an expression and the steps that evaluating it reports, in
/// order. Operands are evaluated left to right; the first fault stops it.
pub open spec fn eval_expr(env: Seq<(Seq<char>, Value)>, e: SExpr) -> (
    Result<Value, EvalErrorKind>,
    Seq<Note>,
)
    decreases e,
{
    match e {
        SExpr::Int(v) => (Ok(Value::Int(v)), seq![produced(Value::Int(v))]),
        SExpr::Bool(b) => (Ok(Value::Bool(b)), seq![produced(Value::Bool(b))]),
        SExpr::Var(n) => match lookup(env, n) {
            Some(v) => (Ok(v), seq![produced(v)]),
            None => (Err(EvalErrorKind::UnboundVariable), seq![raised(Some(n))]),
        },
        SExpr::Neg(x) => {
            let (r, ns) = eval_expr(env, *x);
            match r {
                Ok(v) => match negate(v) {
                    Ok(w) => (Ok(w), ns.push(produced(w))),
                    Err(k) => (Err(k), ns.push(raised(None))),
                },
                Err(k) => (Err(k), ns),
            }
        },
        SExpr::Bin(op, l, r) => {
            let (rl, nl) = eval_expr(env, *l);
            match rl {
                Ok(a) => {
                    let (rr, nr) = eval_expr(env, *r);
                    match rr {
                        Ok(b) => match apply(op, a, b) {
                            Ok(w) => (Ok(w), nl + nr.push(produced(w))),
                            Err(k) => (Err(k), nl + nr.push(raised(None))),
                        },
                        Err(k) => (Err(k), nl + nr),
                    }
                },
                Err(k) => (Err(k), nl),
            }
        },
    }
}

/// What a tracer slot holds, if anything.
pub open spec fn slot_view(t: Option<Tracer>) -> Option<TracerState> {
    match t {
        Some(x) => Some(x@),
        None => None,
    }
}

/// A tracer slot after its tracer, if any, has been notified of `notes`.
pub open spec fn observe_slot(t: Option<TracerState>, notes: Seq<Note>) -> Option<TracerState> {
    match t {
        Some(s) => Some(observe(s, notes)),
        None => None,
    }
}

/// Notifying a tracer of two runs of notes is notifying it of both in order.
pub proof fn lemma_observe_concat(t: Option<TracerState>, a: Seq<Note>, b: Seq<Note>)
    ensures
        observe_slot(observe_slot(t, a), b) == observe_slot(t, a + b),
        observe_slot(t, Seq::empty()) == t,
{
    if let Some(s) = t {
        match s {
            TracerState::Collector(q) => {
                assert(q + stamp(a, q.len()) + stamp(b, q.len() + a.len()) =~= q + stamp(
                    a + b,
                    q.len(),
                ));
                assert(q + stamp(Seq::empty(), q.len()) =~= q);
            },
            TracerState::Counter(c) => {
                assert(counted(counted(c, a.len()), b.len()) == counted(c, (a + b).len()));
                assert(counted(c, 0) == c);
            },
        }
    }
}

/// Notifies the tracer in the slot, if any, of one step.
fn emit(slot: &mut Option<Tracer>, kind: EventKind, value: Option<Value>, label: Option<Vec<char>>)
    ensures
        slot_view(*final(slot)) == observe_slot(
            slot_view(*old(slot)),
            seq![Note { kind, value, label: crate::trace::label_view(label) }],
        ),
{
    match slot {
        Some(t) => t.notify(kind, value, label),
        None => {},
    }
}

/// The value of the latest binding of `name`.
fn lookup_exec(env: &Vec<Binding>, name: &Vec<char>) -> (r: Option<Value>)
    ensures
        r == lookup(env_view(env@), name@),
{
    let mut i: usize = env.len();
    assert(env@.subrange(0, i as int) =~= env@);
    while i > 0
        invariant
            i <= env@.len(),
            lookup(env_view(env@), name@) == lookup(env_view(env@.subrange(0, i as int)), name@),
        decreases i,
    {
        let ghost pre = env@.subrange(0, i as int);
        assert(env_view(pre).drop_last() =~= env_view(env@.subrange(0, i - 1)));
        assert(env_view(pre).last() == (env@[i - 1].name@, env@[i - 1].value));
        if chars_equal(&env[i - 1].name, name) {
            return Some(env[i - 1].value);
        }
        i = i - 1;
    }
    None
}

/// The result of a unary minus.
fn negate_exec(v: Value) -> (r: Result<Value, EvalErrorKind>)
    ensures
        r == negate(v),
{
    match v {
        Value::Int(a) => match 0i64.checked_sub(a) {
            Some(x) => Ok(Value::Int(x)),
            None => Err(EvalErrorKind::Overflow),
        },
        _ => Err(EvalErrorKind::TypeMismatch),
    }
}

/// The result of a binary operator on two values.
pub fn apply_op(op: BinOp, a: Value, b: Value) -> (r: Result<Value, EvalErrorKind>)
    ensures
        r == apply(op, a, b),
{
    match op {
        BinOp::Eq | BinOp::Ne => match (a, b) {
            (Value::Int(_), Value::Int(_)) | (Value::Bool(_), Value::Bool(_)) | (
                Value::Unit,
                Value::Unit,
            ) => Ok(Value::Bool((a == b) == matches!(op, BinOp::Eq))),
            _ => Err(EvalErrorKind::TypeMismatch),
        },
        _ => match (a, b) {
            (Value::Int(x), Value::Int(y)) => match op {
                BinOp::Lt => Ok(Value::Bool(x < y)),
                BinOp::Le => Ok(Value::Bool(x <= y)),
                BinOp::Gt => Ok(Value::Bool(x > y)),
                BinOp::Ge => Ok(Value::Bool(x >= y)),
                _ => {
                    if (matches!(op, BinOp::Div) || matches!(op, BinOp::Rem)) && y == 0 {
                        return Err(EvalErrorKind::DivisionByZero);
                    }
                    let r = match op {
                        BinOp::Add => x.checked_add(y),
                        BinOp::Sub => x.checked_sub(y),
                        BinOp::Mul => x.checked_mul(y),
                        BinOp::Div => x.checked_div(y),
                        _ => x.checked_rem(y),
                    };
                    match r {
                        Some(v) => Ok(Value::Int(v)),
                        None => Err(EvalErrorKind::Overflow),
                    }
                },
            },
            _ => Err(EvalErrorKind::TypeMismatch),
        },
    }
}

/// Evaluates an expression, notifying the tracer in the slot of each step.
pub fn eval_expr_exec(env: &Vec<Binding>, e: &Expr, slot: &mut Option<Tracer>) -> (r: Result<
    Value,
    EvalErrorKind,
>)
    ensures
        r == eval_expr(env_view(env@), e.view()).0,
        slot_view(*final(slot)) == observe_slot(
            slot_view(*old(slot)),
            eval_expr(env_view(env@), e.view()).1,
        ),
    decreases e,
{
    let ghost s0 = slot_view(*slot);
    match e {
        Expr::Int(v) => {
            emit(slot, EventKind::ValueProduced, Some(Value::Int(*v)), None);
            Ok(Value::Int(*v))
        },
        Expr::Bool(b) => {
            emit(slot, EventKind::ValueProduced, Some(Value::Bool(*b)), None);
            Ok(Value::Bool(*b))
        },
        Expr::Var(n) => match lookup_exec(env, n) {
            Some(v) => {
                emit(slot, EventKind::ValueProduced, Some(v), None);
                Ok(v)
            },
            None => {
                emit(slot, EventKind::ErrorRaised, None, Some(copy_chars(n)));
                Err(EvalErrorKind::UnboundVariable)
            },
        },
        Expr::Neg(x) => {
            let ghost (_, ns) = eval_expr(env_view(env@), (**x).view());
            let v = match eval_expr_exec(env, x, slot) {
                Ok(v) => v,
                Err(k) => {
                    return Err(k);
                },
            };
            match negate_exec(v) {
                Ok(w) => {
                    emit(slot, EventKind::ValueProduced, Some(w), None);
                    proof {
                        lemma_observe_concat(s0, ns, seq![produced(w)]);
                        assert(ns + seq![produced(w)] =~= ns.push(produced(w)));
                    }
                    Ok(w)
                },
                Err(k) => {
                    emit(slot, EventKind::ErrorRaised, None, None);
                    proof {
                        lemma_observe_concat(s0, ns, seq![raised(None)]);
                        assert(ns + seq![raised(None)] =~= ns.push(raised(None)));
                    }
                    Err(k)
                },
            }
        },
        Expr::Bin(op, l, r) => {
            let ghost (_, nl) = eval_expr(env_view(env@), (**l).view());
            let ghost (_, nr) = eval_expr(env_view(env@), (**r).view());
            let a = match eval_expr_exec(env, l, slot) {
                Ok(v) => v,
                Err(k) => {
                    return Err(k);
                },
            };
            let b = match eval_expr_exec(env, r, slot) {
                Ok(v) => v,
                Err(k) => {
                    proof {
                        lemma_observe_concat(s0, nl, nr);
                    }
                    return Err(k);
                },
            };
            proof {
                lemma_observe_concat(s0, nl, nr);
            }
            match apply_op(*op, a, b) {
                Ok(w) => {
                    emit(slot, EventKind::ValueProduced, Some(w), None);
                    proof {
                        lemma_observe_concat(s0, nl + nr, seq![produced(w)]);
                        assert(nl + nr + seq![produced(w)] =~= nl + nr.push(produced(w)));
                    }
                    Ok(w)
                },
                Err(k) => {
                    emit(slot, EventKind::ErrorRaised, None, None);
                    proof {
                        lemma_observe_concat(s0, nl + nr, seq![raised(None)]);
                        assert(nl + nr + seq![raised(None)] =~= nl + nr.push(raised(None)));
                    }
                    Err(k)
                },
            }
        },
    }
}

/// Runs statements `i..` in order: the value of the last one, the steps
/// reported, and the bindings afterwards. A `let` statement has the value
/// `Unit`; the first fault stops the run, and bindings made before it stay.
pub open spec fn run_stmts(
    env: Seq<(Seq<char>, Value)>,
    stmts: Seq<SStmt>,
    i: int,
    last: Value,
) -> (Result<Value, EvalError>, Seq<Note>, Seq<(Seq<char>, Value)>)
    decreases stmts.len() - i,
{
    if i < 0 || i >= stmts.len() {
        (Ok(last), Seq::empty(), env)
    } else {
        match stmts[i] {
            SStmt::Let(n, e) => {
                let (r, ns) = eval_expr(env, e);
                match r {
                    Ok(v) => {
                        let (r2, ns2, env2) = run_stmts(env.push((n, v)), stmts, i + 1, Value::Unit);
                        (r2, ns.push(bound(n, v)) + ns2, env2)
                    },
                    Err(k) => (Err(EvalError { stmt: i as usize, kind: k }), ns, env),
                }
            },
            SStmt::Expr(e) => {
                let (r, ns) = eval_expr(env, e);
                match r {
                    Ok(v) => {
                        let (r2, ns2, env2) = run_stmts(env, stmts, i + 1, v);
                        (r2, ns + ns2, env2)
                    },
                    Err(k) => (Err(EvalError { stmt: i as usize, kind: k }), ns, env),
                }
            },
        }
    }
}

/// Runs a program on the bindings in `env`, notifying the tracer in the slot
/// of each step.
pub fn exec_program(env: &mut Vec<Binding>, stmts: &Vec<Stmt>, slot: &mut Option<Tracer>) -> (r:
    Result<Value, EvalError>)
    ensures
        ({
            let (res, notes, env2) = run_stmts(
                env_view(old(env)@),
                stmts_view(stmts@),
                0,
                Value::Unit,
            );
            &&& r == res
            &&& env_view(final(env)@) == env2
            &&& slot_view(*final(slot)) == observe_slot(slot_view(*old(slot)), notes)
        }),
{
    let ghost sv = stmts_view(stmts@);
    let ghost target = run_stmts(env_view(env@), sv, 0, Value::Unit);
    let ghost s0 = slot_view(*slot);
    let ghost mut done: Seq<Note> = Seq::empty();
    let mut last = Value::Unit;
    let mut i: usize = 0;
    proof {
        lemma_observe_concat(s0, Seq::empty(), Seq::empty());
        assert(done + target.1 =~= target.1);
    }
    while i < stmts.len()
        invariant
            i <= stmts@.len(),
            sv == stmts_view(stmts@),
            target == run_stmts(env_view(old(env)@), sv, 0, Value::Unit),
            s0 == slot_view(*old(slot)),
            ({
                let (r, n, e) = run_stmts(env_view(env@), sv, i as int, last);
                &&& target.0 == r
                &&& target.2 == e
                &&& target.1 == done + n
            }),
            slot_view(*slot) == observe_slot(s0, done),
        decreases stmts@.len() - i,
    {
        assert(sv[i as int] == stmts@[i as int].view());
        let ghost before = env_view(env@);
        match &stmts[i] {
            Stmt::Let(n, e) => {
                let ghost ns = eval_expr(before, e.view()).1;
                let res = eval_expr_exec(env, e, slot);
                proof {
                    lemma_observe_concat(s0, done, ns);
                }
                match res {
                    Ok(v) => {
                        emit(slot, EventKind::BindingCreated, Some(v), Some(copy_chars(n)));
                        proof {
                            lemma_observe_concat(s0, done + ns, seq![bound(n@, v)]);
                        }
                        env.push(Binding { name: copy_chars(n), value: v });
                        assert(env_view(env@) =~= before.push((n@, v)));
                        let ghost rest = run_stmts(env_view(env@), sv, i + 1, Value::Unit).1;
                        assert(done + (ns.push(bound(n@, v)) + rest) =~= (done + ns + seq![
                            bound(n@, v),
                        ]) + rest);
                        proof {
                            done = done + ns + seq![bound(n@, v)];
                        }
                        last = Value::Unit;
                    },
                    Err(k) => {
                        return Err(EvalError { stmt: i, kind: k });
                    },
                }
            },
            Stmt::Expr(e) => {
                let ghost ns = eval_expr(before, e.view()).1;
                let res = eval_expr_exec(env, e, slot);
                proof {
                    lemma_observe_concat(s0, done, ns);
                }
                match res {
                    Ok(v) => {
                        let ghost rest = run_stmts(before, sv, i + 1, v).1;
                        assert(done + (ns + rest) =~= (done + ns) + rest);
                        proof {
                            done = done + ns;
                        }
                        last = v;
                    },
                    Err(k) => {
                        return Err(EvalError { stmt: i, kind: k });
                    },
                }
            },
        }
        i = i + 1;
    }
    assert(done + Seq::<Note>::empty() =~= done);
    Ok(last)
}

/// Notifies the tracer in the slot, if any, that the text could not be read.
pub fn emit_error(slot: &mut Option<Tracer>)
    ensures
        slot_view(*final(slot)) == observe_slot(slot_view(*old(slot)), seq![raised(None)]),
{
    emit(slot, EventKind::ErrorRaised, None, None);
}

} // verus!
