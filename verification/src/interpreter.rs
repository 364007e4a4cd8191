use vstd::prelude::*;

use std::rc::Rc;

use crate::ast::{
    lemma_exprs_view, lemma_stmts_view, param_view, rc_clone, stmts_view, BinaryOp, Expr,
    ExprInfo, ExprInfoView, ExprView, Literal, LiteralView, Stmt, StmtView, UnaryOp,
};
use crate::errors::{undefined_variable_view, ErrorView, InterpreterError};
use crate::runtime::{
    arity_of, env_get, env_owner, env_set, env_values_ok, env_wf, is_nan, lemma_get_ok, lemma_push_ok,
    lemma_set_ok, not_callable, number_eq, number_le, number_lt, number_neg, truthy, value_ok, value_text,
    values_equal, CallableView, EnvView, Environment, LoxCallable, Number, ScopeView, ValueView,
    VariableValue,
};
use crate::text::{decimal, push_decimal};

verus! {

// ---------------------------------------------------------------------------
// The interpreter is a machine that runs a program one small step at a time.
// What it cannot do itself (print, read the clock, floating-point
// arithmetic) it asks of its host through the action a step returns.
// ---------------------------------------------------------------------------

/// Floating-point work the machine asks of its host.
pub enum NumOp {
    /// The value of a number literal, from its digits.
    Parse { lexeme: String },
    Add { left: Number, right: Number },
    Subtract { left: Number, right: Number },
    Multiply { left: Number, right: Number },
    Divide { left: Number, right: Number },
    /// The seconds since the Unix epoch, for the native `clock()`.
    Clock,
}

pub enum NumOpView {
    Parse(Seq<char>),
    Add(u64, u64),
    Subtract(u64, u64),
    Multiply(u64, u64),
    Divide(u64, u64),
    Clock,
}

/// What the host is to do after a step.
pub enum Action {
    /// Nothing: step again.
    Continue,
    /// Print this line.
    Print { text: String },
    /// Print this number as a line.
    PrintNumber { value: Number },
    /// Compute this and hand the result back with `supply`.
    Compute { op: NumOp },
    /// The program has ended, with this outcome.
    Done { result: Result<(), InterpreterError> },
}

pub enum ActionView {
    Continue,
    Print(Seq<char>),
    PrintNumber(u64),
    Compute(NumOpView),
    Done(Result<(), ErrorView>),
}

impl View for NumOp {
    type V = NumOpView;

    open spec fn view(&self) -> NumOpView {
        match self {
            NumOp::Parse { lexeme } => NumOpView::Parse(lexeme@),
            NumOp::Add { left, right } => NumOpView::Add(left.bits, right.bits),
            NumOp::Subtract { left, right } => NumOpView::Subtract(left.bits, right.bits),
            NumOp::Multiply { left, right } => NumOpView::Multiply(left.bits, right.bits),
            NumOp::Divide { left, right } => NumOpView::Divide(left.bits, right.bits),
            NumOp::Clock => NumOpView::Clock,
        }
    }
}

impl View for Action {
    type V = ActionView;

    open spec fn view(&self) -> ActionView {
        match self {
            Action::Continue => ActionView::Continue,
            Action::Print { text } => ActionView::Print(text@),
            Action::PrintNumber { value } => ActionView::PrintNumber(value.bits),
            Action::Compute { op } => ActionView::Compute(op@),
            Action::Done { result } => ActionView::Done(
                match result {
                    Ok(()) => Ok(()),
                    Err(e) => Err(e@),
                },
            ),
        }
    }
}

/// What travels outwards through the frames: an error, or a value given
/// back by `return` (with the line of the `return`).
pub enum SignalView {
    Error(ErrorView),
    Return(ValueView, u32),
}

/// What is left to do, innermost last.
pub enum FrameView {
    /// Run the statements of a list from an index on.
    Run(Seq<StmtView>, usize),
    /// Leave a block, back to the scope it was entered from.
    EndBlock(usize),
    /// Leave a call, back to the caller's scope.
    EndCall(usize),
    /// A `while` loop: its condition and body.
    Loop(ExprInfoView, StmtView),
    /// An `if` waiting for its condition.
    Branch(StmtView, Option<StmtView>),
    /// An expression statement waiting for its value.
    Discard,
    /// A `print` waiting for its value.
    Print,
    /// A `var` waiting for its initial value.
    Define(Seq<char>),
    /// A `return` waiting for its value.
    Return(u32),
    /// A unary operator waiting for its operand (and the operator's line).
    Unary(UnaryOp, u32),
    /// A binary operator waiting for its left operand.
    Right(BinaryOp, ExprInfoView, u32),
    /// A binary operator waiting for its right operand.
    Binary(BinaryOp, ValueView, u32),
    /// An assignment waiting for its value.
    Assign(Seq<char>, u32),
    /// A call waiting for its callee (the call, and the callee's line).
    Callee(ExprInfoView, u32),
    /// A call collecting its arguments.
    Args(ExprInfoView, ValueView, Seq<ValueView>, u32),
}

pub enum ModeView {
    /// Go on with the innermost frame.
    Exec,
    /// Evaluate an expression.
    Eval(ExprInfoView),
    /// Hand a value to the innermost frame.
    Value(ValueView),
    /// Take a signal outwards.
    Unwind(SignalView),
    /// Wait for the host's number.
    Wait,
}

pub struct MachineView {
    pub env: EnvView,
    pub scope: usize,
    pub frames: Seq<FrameView>,
    pub mode: ModeView,
}

pub open spec fn with_mode(m: MachineView, mode: ModeView) -> MachineView {
    MachineView { mode, ..m }
}

pub open spec fn pop(m: MachineView) -> MachineView {
    MachineView { frames: m.frames.drop_last(), ..m }
}

/// The error for a call with the wrong number of arguments.
pub open spec fn arity_message(arity: nat, got: nat) -> Seq<char> {
    "Expected "@ + decimal(arity) + " arguments but got "@ + decimal(got) + "."@
}

/// The error for a `return` outside any function.
pub open spec fn top_level_return_view(line: u32) -> ErrorView {
    ErrorView::Resolver {
        line,
        location: "'return'"@,
        message: "Can't return from top-level code."@,
    }
}

/// `e` with the first `k` parameters bound, in order, to the arguments in
/// scope `i`.
pub open spec fn bind_params(
    e: EnvView,
    i: int,
    params: Seq<(u32, Seq<char>)>,
    args: Seq<ValueView>,
    k: nat,
) -> EnvView
    decreases k,
{
    if k == 0 {
        e
    } else {
        env_set(
            bind_params(e, i, params, args, (k - 1) as nat),
            i,
            params[k - 1].1,
            args[k - 1],
        )
    }
}

/// Starting a statement.
pub open spec fn start_spec(m: MachineView, s: StmtView) -> MachineView {
    match s {
        StmtView::Expr(e) => MachineView {
            frames: m.frames.push(FrameView::Discard),
            mode: ModeView::Eval(e),
            ..m
        },
        StmtView::Print(e) => MachineView {
            frames: m.frames.push(FrameView::Print),
            mode: ModeView::Eval(e),
            ..m
        },
        StmtView::Var(_, name, init) => MachineView {
            frames: m.frames.push(FrameView::Define(name)),
            mode: match init {
                Some(e) => ModeView::Eval(e),
                None => ModeView::Value(ValueView::Nil),
            },
            ..m
        },
        StmtView::Block(list) => MachineView {
            env: m.env.push(ScopeView { vars: Seq::empty(), parent: Some(m.scope) }),
            scope: m.env.len() as usize,
            frames: m.frames.push(FrameView::EndBlock(m.scope)).push(FrameView::Run(list, 0)),
            mode: ModeView::Exec,
        },
        StmtView::If(c, t, e) => MachineView {
            frames: m.frames.push(
                FrameView::Branch(
                    *t,
                    match e {
                        Some(b) => Some(*b),
                        None => None,
                    },
                ),
            ),
            mode: ModeView::Eval(c),
            ..m
        },
        StmtView::While(c, b) => MachineView {
            frames: m.frames.push(FrameView::Loop(c, *b)),
            mode: ModeView::Exec,
            ..m
        },
        StmtView::Function(_, name, params, body) => MachineView {
            env: env_set(
                m.env,
                m.scope as int,
                name,
                ValueView::Function(CallableView::Function { name, params, body, closure: m.scope }),
            ),
            mode: ModeView::Exec,
            ..m
        },
        StmtView::Return(line, v) => MachineView {
            frames: m.frames.push(FrameView::Return(line)),
            mode: match v {
                Some(e) => ModeView::Eval(e),
                None => ModeView::Value(ValueView::Nil),
            },
            ..m
        },
    }
}

/// Evaluating an expression.
pub open spec fn eval_spec(m: MachineView, e: ExprInfoView) -> (MachineView, ActionView) {
    match *e.expr {
        ExprView::Grouping(inner) => (with_mode(m, ModeView::Eval(inner)), ActionView::Continue),
        ExprView::Literal(LiteralView::Str(s)) => (
            with_mode(m, ModeView::Value(ValueView::Str(s))),
            ActionView::Continue,
        ),
        ExprView::Literal(LiteralView::Boolean(b)) => (
            with_mode(m, ModeView::Value(ValueView::Boolean(b))),
            ActionView::Continue,
        ),
        ExprView::Literal(LiteralView::Num(lexeme)) => (
            with_mode(m, ModeView::Wait),
            ActionView::Compute(NumOpView::Parse(lexeme)),
        ),
        ExprView::Nil => (with_mode(m, ModeView::Value(ValueView::Nil)), ActionView::Continue),
        ExprView::Variable(name) => (
            with_mode(
                m,
                match env_get(m.env, m.scope as int, name) {
                    Some(v) => ModeView::Value(v),
                    None => ModeView::Unwind(
                        SignalView::Error(undefined_variable_view(e.line, name)),
                    ),
                },
            ),
            ActionView::Continue,
        ),
        ExprView::Assignment(name, value) => (
            MachineView {
                frames: m.frames.push(FrameView::Assign(name, e.line)),
                mode: ModeView::Eval(value),
                ..m
            },
            ActionView::Continue,
        ),
        ExprView::Unary(op, inner) => (
            MachineView {
                frames: m.frames.push(FrameView::Unary(op, e.line)),
                mode: ModeView::Eval(inner),
                ..m
            },
            ActionView::Continue,
        ),
        ExprView::Binary(op, left, right) => (
            MachineView {
                frames: m.frames.push(FrameView::Right(op, right, e.line)),
                mode: ModeView::Eval(left),
                ..m
            },
            ActionView::Continue,
        ),
        ExprView::Call(callee, _) => (
            MachineView {
                frames: m.frames.push(FrameView::Callee(e, callee.line)),
                mode: ModeView::Eval(callee),
                ..m
            },
            ActionView::Continue,
        ),
    }
}

/// A unary operator applied to its operand.
pub open spec fn unary_spec(op: UnaryOp, v: ValueView, line: u32) -> ModeView {
    match op {
        UnaryOp::Negative => match v {
            ValueView::Num(b) => ModeView::Value(ValueView::Num(number_neg(b))),
            _ => ModeView::Unwind(
                SignalView::Error(
                    ErrorView::Runtime { line, message: "Operand must be a number."@ },
                ),
            ),
        },
        UnaryOp::Not => ModeView::Value(ValueView::Boolean(!truthy(v))),
    }
}

/// Whether `op` orders numbers `a` and `b`.
pub open spec fn compare_spec(op: BinaryOp, a: u64, b: u64) -> bool {
    match op {
        BinaryOp::Less => number_lt(a, b),
        BinaryOp::LessEquals => number_le(a, b),
        BinaryOp::Greater => number_lt(b, a),
        _ => number_le(b, a),
    }
}

/// The error for an arithmetic or comparison operator on other than
/// numbers, reported on the operator's line.
pub open spec fn numbers_error(line: u32) -> ModeView {
    ModeView::Unwind(
        SignalView::Error(ErrorView::Runtime { line, message: "Operands must be numbers."@ }),
    )
}

/// A binary operator applied to its operands.
pub open spec fn binary_spec(m: MachineView, op: BinaryOp, l: ValueView, r: ValueView, line: u32) -> (
    MachineView,
    ActionView,
) {
    match op {
        BinaryOp::Equals => (
            with_mode(m, ModeView::Value(ValueView::Boolean(values_equal(l, r)))),
            ActionView::Continue,
        ),
        BinaryOp::NotEquals => (
            with_mode(m, ModeView::Value(ValueView::Boolean(!values_equal(l, r)))),
            ActionView::Continue,
        ),
        BinaryOp::Less | BinaryOp::LessEquals | BinaryOp::Greater | BinaryOp::GreaterEquals => (
            with_mode(
                m,
                match (l, r) {
                    (ValueView::Num(a), ValueView::Num(b)) => ModeView::Value(
                        ValueView::Boolean(compare_spec(op, a, b)),
                    ),
                    _ => numbers_error(line),
                },
            ),
            ActionView::Continue,
        ),
        BinaryOp::Plus => match (l, r) {
            (ValueView::Num(a), ValueView::Num(b)) => (
                with_mode(m, ModeView::Wait),
                ActionView::Compute(NumOpView::Add(a, b)),
            ),
            (ValueView::Str(a), ValueView::Str(b)) => (
                with_mode(m, ModeView::Value(ValueView::Str(a + b))),
                ActionView::Continue,
            ),
            _ => (
                with_mode(
                    m,
                    ModeView::Unwind(
                        SignalView::Error(
                            ErrorView::Runtime {
                                line,
                                message: "Operands must be two numbers or two strings."@,
                            },
                        ),
                    ),
                ),
                ActionView::Continue,
            ),
        },
        BinaryOp::Minus | BinaryOp::Multiply | BinaryOp::Divide => match (l, r) {
            (ValueView::Num(a), ValueView::Num(b)) => (
                with_mode(m, ModeView::Wait),
                ActionView::Compute(
                    match op {
                        BinaryOp::Minus => NumOpView::Subtract(a, b),
                        BinaryOp::Multiply => NumOpView::Multiply(a, b),
                        _ => NumOpView::Divide(a, b),
                    },
                ),
            ),
            _ => (with_mode(m, numbers_error(line)), ActionView::Continue),
        },
        BinaryOp::Or => (
            with_mode(
                m,
                ModeView::Value(
                    if truthy(l) {
                        l
                    } else {
                        r
                    },
                ),
            ),
            ActionView::Continue,
        ),
        BinaryOp::And => (
            with_mode(
                m,
                ModeView::Value(
                    if !truthy(l) {
                        l
                    } else {
                        r
                    },
                ),
            ),
            ActionView::Continue,
        ),
    }
}

/// Calling a value with the arguments' values.
pub open spec fn call_spec(m: MachineView, callee: ValueView, args: Seq<ValueView>, line: u32) -> (
    MachineView,
    ActionView,
) {
    match callee {
        ValueView::Function(c) => if args.len() != arity_of(c) {
            (
                with_mode(
                    m,
                    ModeView::Unwind(
                        SignalView::Error(
                            ErrorView::Runtime {
                                line,
                                message: arity_message(arity_of(c), args.len()),
                            },
                        ),
                    ),
                ),
                ActionView::Continue,
            )
        } else {
            match c {
                CallableView::Function { name: _, params, body, closure } => (
                    MachineView {
                        env: bind_params(
                            m.env.push(ScopeView { vars: Seq::empty(), parent: Some(closure) }),
                            m.env.len() as int,
                            params,
                            args,
                            params.len(),
                        ),
                        scope: m.env.len() as usize,
                        frames: m.frames.push(FrameView::EndCall(m.scope)).push(
                            FrameView::Run(body, 0),
                        ),
                        mode: ModeView::Exec,
                    },
                    ActionView::Continue,
                ),
                CallableView::NativeClock => (
                    with_mode(m, ModeView::Wait),
                    ActionView::Compute(NumOpView::Clock),
                ),
            }
        },
        _ => (
            with_mode(m, ModeView::Unwind(SignalView::Error(not_callable(line)))),
            ActionView::Continue,
        ),
    }
}

/// Handing a value to the innermost frame.
pub open spec fn value_spec(m: MachineView, v: ValueView) -> (MachineView, ActionView) {
    if m.frames.len() == 0 {
        (with_mode(m, ModeView::Exec), ActionView::Continue)
    } else {
        let p = pop(m);
        match m.frames.last() {
            FrameView::Discard => (with_mode(p, ModeView::Exec), ActionView::Continue),
            FrameView::Print => (
                with_mode(p, ModeView::Exec),
                match v {
                    ValueView::Num(b) => ActionView::PrintNumber(b),
                    _ => ActionView::Print(value_text(v)),
                },
            ),
            FrameView::Define(name) => (
                MachineView {
                    env: env_set(p.env, p.scope as int, name, v),
                    mode: ModeView::Exec,
                    ..p
                },
                ActionView::Continue,
            ),
            FrameView::Branch(t, e) => (
                if truthy(v) {
                    start_spec(p, t)
                } else {
                    match e {
                        Some(s) => start_spec(p, s),
                        None => with_mode(p, ModeView::Exec),
                    }
                },
                ActionView::Continue,
            ),
            FrameView::Loop(_, b) => (
                if truthy(v) {
                    start_spec(m, b)
                } else {
                    with_mode(p, ModeView::Exec)
                },
                ActionView::Continue,
            ),
            FrameView::Return(line) => (
                with_mode(p, ModeView::Unwind(SignalView::Return(v, line))),
                ActionView::Continue,
            ),
            FrameView::Unary(op, line) => (
                with_mode(p, unary_spec(op, v, line)),
                ActionView::Continue,
            ),
            FrameView::Right(op, right, line) => (
                match op {
                    BinaryOp::Or => with_mode(
                        p,
                        if truthy(v) {
                            ModeView::Value(v)
                        } else {
                            ModeView::Eval(right)
                        },
                    ),
                    BinaryOp::And => with_mode(
                        p,
                        if !truthy(v) {
                            ModeView::Value(v)
                        } else {
                            ModeView::Eval(right)
                        },
                    ),
                    _ => MachineView {
                        frames: p.frames.push(FrameView::Binary(op, v, line)),
                        mode: ModeView::Eval(right),
                        ..p
                    },
                },
                ActionView::Continue,
            ),
            FrameView::Binary(op, l, line) => binary_spec(p, op, l, v, line),
            FrameView::Assign(name, line) => (
                match env_owner(p.env, p.scope as int, name) {
                    Some(o) => MachineView {
                        env: env_set(p.env, o, name, v),
                        mode: ModeView::Value(v),
                        ..p
                    },
                    None => with_mode(
                        p,
                        ModeView::Unwind(SignalView::Error(undefined_variable_view(line, name))),
                    ),
                },
                ActionView::Continue,
            ),
            FrameView::Callee(call, line) => (
                MachineView {
                    frames: p.frames.push(FrameView::Args(call, v, Seq::empty(), line)),
                    mode: ModeView::Exec,
                    ..p
                },
                ActionView::Continue,
            ),
            FrameView::Args(call, c, vals, line) => (
                MachineView {
                    frames: p.frames.push(FrameView::Args(call, c, vals.push(v), line)),
                    mode: ModeView::Exec,
                    ..p
                },
                ActionView::Continue,
            ),
            _ => (with_mode(m, ModeView::Exec), ActionView::Continue),
        }
    }
}

/// Going on with the innermost frame.
pub open spec fn exec_spec(m: MachineView) -> (MachineView, ActionView) {
    if m.frames.len() == 0 {
        (with_mode(m, ModeView::Exec), ActionView::Done(Ok(())))
    } else {
        let p = pop(m);
        match m.frames.last() {
            FrameView::Run(list, next) => if next < list.len() {
                (
                    start_spec(
                        MachineView {
                            frames: p.frames.push(FrameView::Run(list, (next + 1) as usize)),
                            ..p
                        },
                        list[next as int],
                    ),
                    ActionView::Continue,
                )
            } else {
                (with_mode(p, ModeView::Exec), ActionView::Continue)
            },
            FrameView::EndBlock(o) => (
                MachineView {
                    scope: o,
                    mode: ModeView::Exec,
                    ..p
                },
                ActionView::Continue,
            ),
            FrameView::EndCall(c) => (
                MachineView { scope: c, mode: ModeView::Value(ValueView::Nil), ..p },
                ActionView::Continue,
            ),
            FrameView::Loop(c, _) => (with_mode(m, ModeView::Eval(c)), ActionView::Continue),
            FrameView::Args(call, c, vals, line) => match *call.expr {
                ExprView::Call(_, args) => if vals.len() < args.len() {
                    (with_mode(m, ModeView::Eval(args[vals.len() as int])), ActionView::Continue)
                } else {
                    call_spec(p, c, vals, line)
                },
                _ => call_spec(p, c, vals, line),
            },
            _ => (with_mode(p, ModeView::Exec), ActionView::Continue),
        }
    }
}

/// Taking a signal outwards through the innermost frame.
pub open spec fn unwind_spec(m: MachineView, s: SignalView) -> (MachineView, ActionView) {
    if m.frames.len() == 0 {
        (
            with_mode(m, ModeView::Exec),
            ActionView::Done(
                Err(
                    match s {
                        SignalView::Error(e) => e,
                        SignalView::Return(_, line) => top_level_return_view(line),
                    },
                ),
            ),
        )
    } else {
        let p = pop(m);
        match m.frames.last() {
            FrameView::EndBlock(o) => (
                MachineView {
                    scope: o,
                    mode: ModeView::Unwind(s),
                    ..p
                },
                ActionView::Continue,
            ),
            FrameView::EndCall(c) => (
                MachineView {
                    scope: c,
                    mode: match s {
                        SignalView::Return(v, _) => ModeView::Value(v),
                        SignalView::Error(_) => ModeView::Unwind(s),
                    },
                    ..p
                },
                ActionView::Continue,
            ),
            _ => (with_mode(p, ModeView::Unwind(s)), ActionView::Continue),
        }
    }
}

/// One step of the machine.
pub open spec fn machine_next(m: MachineView) -> (MachineView, ActionView) {
    let idle = with_mode(m, ModeView::Exec);
    match m.mode {
        ModeView::Exec => exec_spec(idle),
        ModeView::Eval(e) => eval_spec(idle, e),
        ModeView::Value(v) => value_spec(idle, v),
        ModeView::Unwind(s) => unwind_spec(idle, s),
        ModeView::Wait => (m, ActionView::Continue),
    }
}

/// The host's number handed to a machine that waits for one.
pub open spec fn supply_spec(m: MachineView, bits: u64) -> MachineView {
    if m.mode is Wait {
        with_mode(m, ModeView::Value(ValueView::Num(bits)))
    } else {
        m
    }
}

/// A program loaded to run in the machine's current state.
pub open spec fn load_spec(m: MachineView, program: Seq<StmtView>) -> MachineView {
    MachineView { frames: seq![FrameView::Run(program, 0)], mode: ModeView::Exec, ..m }
}

// ---------------------------------------------------------------------------
// What holds of every state the machine reaches.
// ---------------------------------------------------------------------------

pub open spec fn frame_ok(f: FrameView, n: nat) -> bool {
    match f {
        FrameView::EndBlock(o) => o < n,
        FrameView::EndCall(c) => c < n,
        FrameView::Binary(_, l, _) => value_ok(l, n),
        FrameView::Args(_, c, vals, _) => value_ok(c, n) && forall|k: int|
            0 <= k < vals.len() ==> value_ok(#[trigger] vals[k], n),
        _ => true,
    }
}

pub open spec fn mode_ok(md: ModeView, n: nat) -> bool {
    match md {
        ModeView::Value(v) => value_ok(v, n),
        ModeView::Unwind(SignalView::Return(v, _)) => value_ok(v, n),
        _ => true,
    }
}

/// The machine's invariant: the environment is well formed, the current
/// scope and every scope a frame or a closure refers to exist.
pub open spec fn machine_wf(m: MachineView) -> bool {
    &&& env_wf(m.env)
    &&& env_values_ok(m.env)
    &&& m.scope < m.env.len()
    &&& forall|k: int| 0 <= k < m.frames.len() ==> frame_ok(#[trigger] m.frames[k], m.env.len())
    &&& mode_ok(m.mode, m.env.len())
}


proof fn lemma_frame_grow(f: FrameView, n: nat, n2: nat)
    requires
        frame_ok(f, n),
        n <= n2,
    ensures
        frame_ok(f, n2),
{
    if let FrameView::Args(_, _, vals, _) = f {
        assert forall|k: int| 0 <= k < vals.len() implies value_ok(#[trigger] vals[k], n2) by {
            assert(value_ok(vals[k], n));
        }
    }
}

proof fn lemma_mode_grow(md: ModeView, n: nat, n2: nat)
    requires
        mode_ok(md, n),
        n <= n2,
    ensures
        mode_ok(md, n2),
{
}

proof fn lemma_frames_grow(fs: Seq<FrameView>, n: nat, n2: nat)
    requires
        forall|k: int| 0 <= k < fs.len() ==> frame_ok(#[trigger] fs[k], n),
        n <= n2,
    ensures
        forall|k: int| 0 <= k < fs.len() ==> frame_ok(#[trigger] fs[k], n2),
{
    assert forall|k: int| 0 <= k < fs.len() implies frame_ok(#[trigger] fs[k], n2) by {
        lemma_frame_grow(fs[k], n, n2);
    }
}

// ---------------------------------------------------------------------------
// The machine itself.
// ---------------------------------------------------------------------------

enum Signal {
    Error { error: InterpreterError },
    Return { value: VariableValue, line: u32 },
}

enum Frame {
    Run { list: Rc<Vec<Stmt>>, next: usize },
    EndBlock { outer: usize },
    EndCall { caller: usize },
    Loop { condition: ExprInfo, body: Rc<Stmt> },
    Branch { then_branch: Rc<Stmt>, else_branch: Option<Rc<Stmt>> },
    Discard,
    Print,
    Define { name: String },
    Return { line: u32 },
    Unary { op: UnaryOp, line: u32 },
    Right { op: BinaryOp, right: ExprInfo, line: u32 },
    Binary { op: BinaryOp, left: VariableValue, line: u32 },
    Assign { name: String, line: u32 },
    Callee { call: ExprInfo, line: u32 },
    Args { call: ExprInfo, callee: VariableValue, values: Vec<VariableValue>, line: u32 },
}

enum Mode {
    Exec,
    Eval { expr: ExprInfo },
    Value { value: VariableValue },
    Unwind { signal: Signal },
    Wait,
}

struct Machine {
    env: Environment,
    scope: usize,
    frames: Vec<Frame>,
    mode: Mode,
}

spec fn values_view(vs: Seq<VariableValue>) -> Seq<ValueView> {
    vs.map_values(|v: VariableValue| v@)
}

impl View for Signal {
    type V = SignalView;

    closed spec fn view(&self) -> SignalView {
        match self {
            Signal::Error { error } => SignalView::Error(error@),
            Signal::Return { value, line } => SignalView::Return(value@, *line),
        }
    }
}

impl View for Frame {
    type V = FrameView;

    closed spec fn view(&self) -> FrameView {
        match self {
            Frame::Run { list, next } => FrameView::Run(stmts_view((**list)@), *next),
            Frame::EndBlock { outer } => FrameView::EndBlock(*outer),
            Frame::EndCall { caller } => FrameView::EndCall(*caller),
            Frame::Loop { condition, body } => FrameView::Loop(condition@, (**body)@),
            Frame::Branch { then_branch, else_branch } => FrameView::Branch(
                (**then_branch)@,
                match else_branch {
                    Some(b) => Some((**b)@),
                    None => None,
                },
            ),
            Frame::Discard => FrameView::Discard,
            Frame::Print => FrameView::Print,
            Frame::Define { name } => FrameView::Define(name@),
            Frame::Return { line } => FrameView::Return(*line),
            Frame::Unary { op, line } => FrameView::Unary(*op, *line),
            Frame::Right { op, right, line } => FrameView::Right(*op, right@, *line),
            Frame::Binary { op, left, line } => FrameView::Binary(*op, left@, *line),
            Frame::Assign { name, line } => FrameView::Assign(name@, *line),
            Frame::Callee { call, line } => FrameView::Callee(call@, *line),
            Frame::Args { call, callee, values, line } => FrameView::Args(
                call@,
                callee@,
                values_view(values@),
                *line,
            ),
        }
    }
}

impl View for Mode {
    type V = ModeView;

    closed spec fn view(&self) -> ModeView {
        match self {
            Mode::Exec => ModeView::Exec,
            Mode::Eval { expr } => ModeView::Eval(expr@),
            Mode::Value { value } => ModeView::Value(value@),
            Mode::Unwind { signal } => ModeView::Unwind(signal@),
            Mode::Wait => ModeView::Wait,
        }
    }
}

impl View for Machine {
    type V = MachineView;

    closed spec fn view(&self) -> MachineView {
        MachineView {
            env: self.env@,
            scope: self.scope,
            frames: self.frames@.map_values(|f: Frame| f@),
            mode: self.mode@,
        }
    }
}

/// A copy of a parameter list.
fn clone_params(p: &Vec<(u32, String)>) -> (r: Vec<(u32, String)>)
    ensures
        r@ == p@,
{
    let mut r: Vec<(u32, String)> = Vec::new();
    let mut i: usize = 0;
    while i < p.len()
        invariant
            i <= p@.len(),
            r@ == p@.subrange(0, i as int),
        decreases p.len() - i,
    {
        let (line, name) = &p[i];
        r.push((*line, name.clone()));
        i = i + 1;
        assert(r@ =~= p@.subrange(0, i as int));
    }
    assert(r@ =~= p@);
    r
}

impl Machine {
    /// Pushes a frame.
    fn push(&mut self, f: Frame)
        ensures
            final(self)@ == (MachineView { frames: old(self)@.frames.push(f@), ..old(self)@ }),
            machine_wf(old(self)@) && frame_ok(f@, old(self)@.env.len()) ==> machine_wf(
                final(self)@,
            ),
    {
        self.frames.push(f);
        assert(self@.frames =~= old(self)@.frames.push(f@));
        proof {
            if machine_wf(old(self)@) && frame_ok(f@, old(self)@.env.len()) {
            assert forall|k: int| 0 <= k < self@.frames.len() implies frame_ok(
                #[trigger] self@.frames[k],
                self@.env.len(),
            ) by {
                if k < old(self)@.frames.len() {
                    assert(self@.frames[k] == old(self)@.frames[k]);
                }
            }
            }
        }
    }

    /// Sets what the machine does next.
    fn set_mode(&mut self, mode: Mode)
        ensures
            final(self)@ == with_mode(old(self)@, mode@),
            machine_wf(old(self)@) && mode_ok(mode@, old(self)@.env.len()) ==> machine_wf(
                final(self)@,
            ),
    {
        self.mode = mode;
        assert(self.frames == old(self).frames);
        assert(self@.frames == old(self)@.frames);
    }

    /// Makes scope `scope` the current one.
    fn set_scope(&mut self, scope: usize)
        ensures
            final(self)@ == (MachineView { scope, ..old(self)@ }),
            machine_wf(old(self)@) && scope < old(self)@.env.len() ==> machine_wf(final(self)@),
    {
        self.scope = scope;
        assert(self.frames == old(self).frames);
        assert(self@.frames == old(self)@.frames);
    }

    /// Takes out what the machine was to do, leaving it to go on with its
    /// frames.
    fn take_mode(&mut self) -> (mode: Mode)
        ensures
            mode@ == old(self)@.mode,
            final(self)@ == with_mode(old(self)@, ModeView::Exec),
            machine_wf(old(self)@) ==> machine_wf(final(self)@),
    {
        let mut mode = Mode::Exec;
        std::mem::swap(&mut mode, &mut self.mode);
        assert(self.frames == old(self).frames);
        assert(self@.frames == old(self)@.frames);
        mode
    }

    /// Pops the innermost frame.
    fn pop(&mut self) -> (f: Frame)
        requires
            old(self)@.frames.len() > 0,
        ensures
            final(self)@ == pop(old(self)@),
            f@ == old(self)@.frames.last(),
            machine_wf(old(self)@) ==> machine_wf(final(self)@) && frame_ok(
                f@,
                old(self)@.env.len(),
            ),
    {
        let f = self.frames.pop().unwrap();
        assert(self@.frames =~= old(self)@.frames.drop_last());
        proof {
            if machine_wf(old(self)@) {
            assert(frame_ok(old(self)@.frames[old(self)@.frames.len() - 1], old(self)@.env.len()));
            assert forall|k: int| 0 <= k < self@.frames.len() implies frame_ok(
                #[trigger] self@.frames[k],
                self@.env.len(),
            ) by {
                assert(self@.frames[k] == old(self)@.frames[k]);
            }
            }
        }
        f
    }
}


impl Machine {
    /// Starts the statement `s`.
    #[verifier::spinoff_prover]
    fn start(&mut self, s: &Stmt)
        requires
            machine_wf(old(self)@),
        ensures
            machine_wf(final(self)@),
            final(self)@ == start_spec(old(self)@, s@),
    {
        let ghost m = self@;
        match s {
            Stmt::Expr { expr } => {
                self.push(Frame::Discard);
                self.set_mode(Mode::Eval { expr: expr.clone() });
            },
            Stmt::Print { expr } => {
                self.push(Frame::Print);
                self.set_mode(Mode::Eval { expr: expr.clone() });
            },
            Stmt::Var { line: _, name, initializer } => {
                self.push(Frame::Define { name: name.clone() });
                match initializer {
                    Some(e) => {
                        self.set_mode(Mode::Eval { expr: e.clone() });
                    },
                    None => {
                        self.set_mode(Mode::Value { value: VariableValue::Nil });
                    },
                }
            },
            Stmt::Block { statements } => {
                proof {
                    lemma_push_ok(m.env, m.scope);
                    lemma_frames_grow(m.frames, m.env.len(), m.env.len() + 1);
                }
                let outer = self.scope;
                let inner = self.env.scope(outer);
                self.scope = inner;
                self.push(Frame::EndBlock { outer });
                self.push(Frame::Run { list: rc_clone(statements), next: 0 });
                self.set_mode(Mode::Exec);
            },
            Stmt::If { condition, then_branch, else_branch } => {
                let e = match else_branch {
                    Some(b) => Some(rc_clone(b)),
                    None => None,
                };
                self.push(Frame::Branch { then_branch: rc_clone(then_branch), else_branch: e });
                self.set_mode(Mode::Eval { expr: condition.clone() });
            },
            Stmt::While { condition, stmt } => {
                self.push(Frame::Loop { condition: condition.clone(), body: rc_clone(stmt) });
                self.set_mode(Mode::Exec);
            },
            Stmt::Function { line: _, name, params, body } => {
                let ps = Rc::new(clone_params(params));
                let f = LoxCallable::Function {
                    name: name.clone(),
                    params: ps,
                    body: rc_clone(body),
                    closure: self.scope,
                };
                let value = VariableValue::Function { raw: f };
                assert((*ps)@.map_values(|p: (u32, String)| param_view(p)) =~= params@.map_values(
                    |p: (u32, String)| param_view(p),
                ));
                proof {
                    lemma_set_ok(m.env, m.scope as int, name@, value@);
                }
                self.env.define(self.scope, name.clone(), value);
                self.set_mode(Mode::Exec);
            },
            Stmt::Return { line, value } => {
                self.push(Frame::Return { line: *line });
                match value {
                    Some(e) => {
                        self.set_mode(Mode::Eval { expr: e.clone() });
                    },
                    None => {
                        self.set_mode(Mode::Value { value: VariableValue::Nil });
                    },
                }
            },
        }
    }

    /// Evaluates the expression `e`.
    #[verifier::spinoff_prover]
    fn eval(&mut self, e: ExprInfo) -> (a: Action)
        requires
            machine_wf(old(self)@),
        ensures
            machine_wf(final(self)@),
            (final(self)@, a@) == eval_spec(old(self)@, e@),
    {
        let ghost m = self@;
        match &*e.expr {
            Expr::Grouping { expr } => {
                self.set_mode(Mode::Eval { expr: expr.clone() });
                Action::Continue
            },
            Expr::Literal { value } => match value {
                Literal::Str { value } => {
                    self.set_mode(Mode::Value { value: VariableValue::Str { value: value.clone() } });
                    Action::Continue
                },
                Literal::Boolean { value } => {
                    self.set_mode(Mode::Value { value: VariableValue::Boolean { value: *value } });
                    Action::Continue
                },
                Literal::Num { lexeme } => {
                    self.set_mode(Mode::Wait);
                    Action::Compute { op: NumOp::Parse { lexeme: lexeme.clone() } }
                },
            },
            Expr::Nil => {
                self.set_mode(Mode::Value { value: VariableValue::Nil });
                Action::Continue
            },
            Expr::Variable { name } => {
                let found = match self.env.get(self.scope, name.as_str(), e.line) {
                    Ok(v) => Ok(v.clone()),
                    Err(err) => Err(err),
                };
                match found {
                    Ok(v) => {
                        proof {
                            lemma_get_ok(m.env, m.scope as int, name@);
                        }
                        self.set_mode(Mode::Value { value: v });
                    },
                    Err(error) => {
                        self.set_mode(Mode::Unwind { signal: Signal::Error { error } });
                    },
                }
                Action::Continue
            },
            Expr::Assignment { name, value } => {
                self.push(Frame::Assign { name: name.clone(), line: e.line });
                self.set_mode(Mode::Eval { expr: value.clone() });
                Action::Continue
            },
            Expr::Unary { op, expr } => {
                self.push(Frame::Unary { op: *op, line: e.line });
                self.set_mode(Mode::Eval { expr: expr.clone() });
                Action::Continue
            },
            Expr::Binary { op, left, right } => {
                self.push(Frame::Right { op: *op, right: right.clone(), line: e.line });
                self.set_mode(Mode::Eval { expr: left.clone() });
                Action::Continue
            },
            Expr::Call { callee, args: _ } => {
                let line = callee.line;
                let next = callee.clone();
                self.push(Frame::Callee { call: e.clone(), line });
                self.set_mode(Mode::Eval { expr: next });
                Action::Continue
            },
        }
    }
}


impl Machine {
    /// Applies the binary operator `op` to its operands.
    #[verifier::spinoff_prover]
    fn binary(&mut self, op: BinaryOp, l: VariableValue, r: VariableValue, line: u32) -> (a: Action)
        requires
            machine_wf(old(self)@),
            value_ok(l@, old(self)@.env.len()),
            value_ok(r@, old(self)@.env.len()),
        ensures
            machine_wf(final(self)@),
            (final(self)@, a@) == binary_spec(old(self)@, op, l@, r@, line),
    {
        match op {
            BinaryOp::Equals => {
                let b = l.equals(&r);
                self.set_mode(Mode::Value { value: VariableValue::Boolean { value: b } });
                Action::Continue
            },
            BinaryOp::NotEquals => {
                let b = l.equals(&r);
                self.set_mode(Mode::Value { value: VariableValue::Boolean { value: !b } });
                Action::Continue
            },
            BinaryOp::Less | BinaryOp::LessEquals | BinaryOp::Greater | BinaryOp::GreaterEquals => {
                match (&l, &r) {
                    (VariableValue::Num { value: x }, VariableValue::Num { value: y }) => {
                        let b = match op {
                            BinaryOp::Less => x.less_than(y),
                            BinaryOp::LessEquals => x.less_equal(y),
                            BinaryOp::Greater => y.less_than(x),
                            _ => y.less_equal(x),
                        };
                        self.set_mode(Mode::Value { value: VariableValue::Boolean { value: b } });
                    },
                    _ => {
                        let error = InterpreterError::operands_must_be_numbers_error(line);
                        self.set_mode(Mode::Unwind { signal: Signal::Error { error } });
                    },
                }
                Action::Continue
            },
            BinaryOp::Plus => match (l, r) {
                (VariableValue::Num { value: x }, VariableValue::Num { value: y }) => {
                    self.set_mode(Mode::Wait);
                    Action::Compute { op: NumOp::Add { left: x, right: y } }
                },
                (VariableValue::Str { value: x }, VariableValue::Str { value: y }) => {
                    let mut joined = x;
                    joined.append(y.as_str());
                    self.set_mode(Mode::Value { value: VariableValue::Str { value: joined } });
                    Action::Continue
                },
                _ => {
                    let error = InterpreterError::runtime_error(
                        line,
                        String::from_str("Operands must be two numbers or two strings."),
                    );
                    self.set_mode(Mode::Unwind { signal: Signal::Error { error } });
                    Action::Continue
                },
            },
            BinaryOp::Minus | BinaryOp::Multiply | BinaryOp::Divide => match (l, r) {
                (VariableValue::Num { value: x }, VariableValue::Num { value: y }) => {
                    self.set_mode(Mode::Wait);
                    let op = match op {
                        BinaryOp::Minus => NumOp::Subtract { left: x, right: y },
                        BinaryOp::Multiply => NumOp::Multiply { left: x, right: y },
                        _ => NumOp::Divide { left: x, right: y },
                    };
                    Action::Compute { op }
                },
                _ => {
                    let error = InterpreterError::operands_must_be_numbers_error(line);
                    self.set_mode(Mode::Unwind { signal: Signal::Error { error } });
                    Action::Continue
                },
            },
            BinaryOp::Or => {
                let value = if l.is_truthy() {
                    l
                } else {
                    r
                };
                self.set_mode(Mode::Value { value });
                Action::Continue
            },
            BinaryOp::And => {
                let value = if !l.is_truthy() {
                    l
                } else {
                    r
                };
                self.set_mode(Mode::Value { value });
                Action::Continue
            },
        }
    }

    /// Leaves a signal with no frame left: the program ends.
    fn finish(&mut self, signal: Signal) -> (a: Action)
        requires
            machine_wf(old(self)@),
            old(self)@.frames.len() == 0,
        ensures
            machine_wf(final(self)@),
            (final(self)@, a@) == unwind_spec(old(self)@, signal@),
    {
        self.set_mode(Mode::Exec);
        let error = match signal {
            Signal::Error { error } => error,
            Signal::Return { value: _, line } => InterpreterError::top_level_return(
                line,
                String::from_str("'return'"),
            ),
        };
        Action::Done { result: Err(error) }
    }

    /// Takes a signal outwards through the innermost frame.
    #[verifier::spinoff_prover]
    fn unwind(&mut self, signal: Signal) -> (a: Action)
        requires
            machine_wf(old(self)@),
            mode_ok(ModeView::Unwind(signal@), old(self)@.env.len()),
        ensures
            machine_wf(final(self)@),
            (final(self)@, a@) == unwind_spec(old(self)@, signal@),
    {
        if self.frames.len() == 0 {
            return self.finish(signal);
        }
        let f = self.pop();
        match f {
            Frame::EndBlock { outer } => {
                self.set_scope(outer);
                self.set_mode(Mode::Unwind { signal });
            },
            Frame::EndCall { caller } => {
                self.scope = caller;
                match signal {
                    Signal::Return { value, line: _ } => {
                        self.set_mode(Mode::Value { value });
                    },
                    Signal::Error { error } => {
                        self.set_mode(Mode::Unwind { signal: Signal::Error { error } });
                    },
                }
            },
            _ => {
                self.set_mode(Mode::Unwind { signal });
            },
        }
        Action::Continue
    }
}


impl Machine {
    /// Calls the value `callee` with the arguments `values`; `line` is the
    /// callee's line.
    #[verifier::spinoff_prover]
    fn call(&mut self, callee: VariableValue, values: Vec<VariableValue>, line: u32) -> (a: Action)
        requires
            machine_wf(old(self)@),
            value_ok(callee@, old(self)@.env.len()),
            forall|k: int|
                0 <= k < values@.len() ==> value_ok(#[trigger] values@[k]@, old(self)@.env.len()),
        ensures
            machine_wf(final(self)@),
            (final(self)@, a@) == call_spec(old(self)@, callee@, values_view(values@), line),
    {
        let ghost m = self@;
        let ghost vv = values_view(values@);
        assert(vv.len() == values@.len());
        let function = match callee.into_function(line) {
            Ok(f) => f,
            Err(error) => {
                self.set_mode(Mode::Unwind { signal: Signal::Error { error } });
                return Action::Continue;
            },
        };
        let arity = function.arity();
        if values.len() != arity {
            let mut message = String::from_str("Expected ");
            push_decimal(&mut message, arity as u64);
            message.append(" arguments but got ");
            push_decimal(&mut message, values.len() as u64);
            message.append(".");
            let error = InterpreterError::runtime_error(line, message);
            self.set_mode(Mode::Unwind { signal: Signal::Error { error } });
            return Action::Continue;
        }
        match function {
            LoxCallable::Function { name: _, params, body, closure } => {
                let caller = self.scope;
                let ghost pv = (*params)@.map_values(|p: (u32, String)| param_view(p));
                let ghost e1 = m.env.push(ScopeView { vars: Seq::empty(), parent: Some(closure) });
                proof {
                    lemma_push_ok(m.env, closure);
                    lemma_frames_grow(m.frames, m.env.len(), m.env.len() + 1);
                    lemma_mode_grow(m.mode, m.env.len(), m.env.len() + 1);
                }
                let inner = self.env.scope(closure);
                let ghost fr = self.frames;
                let ghost md = self.mode;
                let mut k: usize = 0;
                while k < (*params).len()
                    invariant
                        k <= (*params)@.len(),
                        (*params)@.len() == values@.len(),
                        vv == values_view(values@),
                        pv == (*params)@.map_values(|p: (u32, String)| param_view(p)),
                        inner == m.env.len(),
                        self.env.wf(),
                        env_values_ok(self.env@),
                        self.env@.len() == m.env.len() + 1,
                        self.env@ == bind_params(e1, inner as int, pv, vv, k as nat),
                        forall|j: int|
                            0 <= j < values@.len() ==> value_ok(#[trigger] values@[j]@, m.env.len()),
                        self.frames == fr,
                        self.mode == md,
                        self.scope == caller,
                    decreases (*params)@.len() - k,
                {
                    let pname = &(*params)[k].1;
                    let arg = values[k].clone();
                    proof {
                        assert(value_ok(values@[k as int]@, m.env.len()));
                        lemma_set_ok(self.env@, inner as int, pname@, arg@);
                    }
                    self.env.define(inner, pname.clone(), arg);
                    k = k + 1;
                }
                assert(self@ == MachineView {
                    env: bind_params(e1, inner as int, pv, vv, pv.len()),
                    scope: m.scope,
                    frames: m.frames,
                    mode: m.mode,
                });
                self.push(Frame::EndCall { caller });
                self.set_scope(inner);
                self.push(Frame::Run { list: body, next: 0 });
                self.set_mode(Mode::Exec);
                Action::Continue
            },
            LoxCallable::NativeClock => {
                self.set_mode(Mode::Wait);
                Action::Compute { op: NumOp::Clock }
            },
        }
    }
}


impl Machine {
    /// Hands the value `v` to the innermost frame.
    #[verifier::spinoff_prover]
    #[verifier::rlimit(30)]
    fn deliver(&mut self, v: VariableValue) -> (a: Action)
        requires
            machine_wf(old(self)@),
            value_ok(v@, old(self)@.env.len()),
        ensures
            machine_wf(final(self)@),
            (final(self)@, a@) == value_spec(old(self)@, v@),
    {
        let ghost m = self@;
        if self.frames.len() == 0 {
            self.set_mode(Mode::Exec);
            return Action::Continue;
        }
        let f = self.pop();
        match f {
            Frame::Discard => {
                self.set_mode(Mode::Exec);
                Action::Continue
            },
            Frame::Print => {
                self.set_mode(Mode::Exec);
                match &v {
                    VariableValue::Num { value } => Action::PrintNumber { value: *value },
                    _ => Action::Print { text: v.text().unwrap() },
                }
            },
            Frame::Define { name } => {
                proof {
                    lemma_set_ok(m.env, m.scope as int, name@, v@);
                }
                self.env.define(self.scope, name, v);
                self.set_mode(Mode::Exec);
                Action::Continue
            },
            Frame::Branch { then_branch, else_branch } => {
                if v.is_truthy() {
                    self.start(&*then_branch);
                } else {
                    match else_branch {
                        Some(b) => self.start(&*b),
                        None => self.set_mode(Mode::Exec),
                    }
                }
                Action::Continue
            },
            Frame::Loop { condition, body } => {
                if v.is_truthy() {
                    let again = rc_clone(&body);
                    self.push(Frame::Loop { condition, body: again });
                    assert(self@.frames =~= m.frames);
                    self.start(&*body);
                } else {
                    self.set_mode(Mode::Exec);
                }
                Action::Continue
            },
            Frame::Return { line } => {
                self.set_mode(Mode::Unwind { signal: Signal::Return { value: v, line } });
                Action::Continue
            },
            Frame::Unary { op, line } => {
                match op {
                    UnaryOp::Negative => match v {
                        VariableValue::Num { value } => {
                            self.set_mode(
                                Mode::Value { value: VariableValue::Num { value: value.negate() } },
                            );
                        },
                        _ => {
                            let error = InterpreterError::runtime_error(
                                line,
                                String::from_str("Operand must be a number."),
                            );
                            self.set_mode(Mode::Unwind { signal: Signal::Error { error } });
                        },
                    },
                    UnaryOp::Not => {
                        let b = v.is_truthy();
                        self.set_mode(Mode::Value { value: VariableValue::Boolean { value: !b } });
                    },
                }
                Action::Continue
            },
            Frame::Right { op, right, line } => {
                match op {
                    BinaryOp::Or => {
                        if v.is_truthy() {
                            self.set_mode(Mode::Value { value: v });
                        } else {
                            self.set_mode(Mode::Eval { expr: right });
                        }
                    },
                    BinaryOp::And => {
                        if !v.is_truthy() {
                            self.set_mode(Mode::Value { value: v });
                        } else {
                            self.set_mode(Mode::Eval { expr: right });
                        }
                    },
                    _ => {
                        self.push(Frame::Binary { op, left: v, line });
                        self.set_mode(Mode::Eval { expr: right });
                    },
                }
                Action::Continue
            },
            Frame::Binary { op, left, line } => self.binary(op, left, v, line),
            Frame::Assign { name, line } => {
                proof {
                    if env_owner(m.env, m.scope as int, name@) is Some {
                        crate::runtime::lemma_owner_props(m.env, m.scope as int, name@);
                        lemma_set_ok(m.env, env_owner(m.env, m.scope as int, name@).unwrap(), name@, v@);
                    }
                }
                let copy = v.clone();
                match self.env.assign(self.scope, name, copy, line) {
                    Ok(()) => self.set_mode(Mode::Value { value: v }),
                    Err(error) => self.set_mode(Mode::Unwind { signal: Signal::Error { error } }),
                }
                Action::Continue
            },
            Frame::Callee { call, line } => {
                let values: Vec<VariableValue> = Vec::new();
                assert(values_view(values@) =~= Seq::empty());
                self.push(Frame::Args { call, callee: v, values, line });
                self.set_mode(Mode::Exec);
                Action::Continue
            },
            Frame::Args { call, callee, values, line } => {
                let ghost before = values@;
                let mut values = values;
                values.push(v);
                assert(values_view(values@) =~= values_view(before).push(v@));
                self.push(Frame::Args { call, callee, values, line });
                self.set_mode(Mode::Exec);
                Action::Continue
            },
            other => {
                self.push(other);
                assert(self@.frames =~= m.frames);
                self.set_mode(Mode::Exec);
                Action::Continue
            },
        }
    }

    /// Goes on with the innermost frame.
    #[verifier::spinoff_prover]
    fn proceed(&mut self) -> (a: Action)
        requires
            machine_wf(old(self)@),
        ensures
            machine_wf(final(self)@),
            (final(self)@, a@) == exec_spec(old(self)@),
    {
        let ghost m = self@;
        if self.frames.len() == 0 {
            self.set_mode(Mode::Exec);
            return Action::Done { result: Ok(()) };
        }
        let f = self.pop();
        let ghost fv = f@;
        match f {
            Frame::Run { list, next } => {
                let stmts: &Vec<Stmt> = &*list;
                proof {
                    lemma_stmts_view(stmts@);
                }
                if next < stmts.len() {
                    self.push(Frame::Run { list: rc_clone(&list), next: next + 1 });
                    self.start(&stmts[next]);
                } else {
                    self.set_mode(Mode::Exec);
                }
                Action::Continue
            },
            Frame::EndBlock { outer } => {
                self.set_scope(outer);
                self.set_mode(Mode::Exec);
                Action::Continue
            },
            Frame::EndCall { caller } => {
                self.set_scope(caller);
                self.set_mode(Mode::Value { value: VariableValue::Nil });
                Action::Continue
            },
            Frame::Loop { condition, body } => {
                let c = condition.clone();
                self.push(Frame::Loop { condition, body });
                assert(self@.frames =~= m.frames);
                self.set_mode(Mode::Eval { expr: c });
                Action::Continue
            },
            Frame::Args { call, callee, values, line } => {
                let next_arg = match &*call.expr {
                    Expr::Call { callee: _, args } => {
                        proof {
                            lemma_exprs_view(args@);
                        }
                        if values.len() < args.len() {
                            Some(args[values.len()].clone())
                        } else {
                            None
                        }
                    },
                    _ => None,
                };
                match next_arg {
                    Some(arg) => {
                        self.push(Frame::Args { call, callee, values, line });
                        assert(self@.frames =~= m.frames);
                        self.set_mode(Mode::Eval { expr: arg });
                        Action::Continue
                    },
                    None => {
                        assert forall|k: int| 0 <= k < values@.len() implies value_ok(
                            #[trigger] values@[k]@,
                            m.env.len(),
                        ) by {
                            assert(fv == FrameView::Args(call@, callee@, values_view(values@), line));
                            assert(frame_ok(fv, m.env.len()));
                            assert(values_view(values@).len() == values@.len());
                            assert(values_view(values@)[k] == values@[k]@);
                            if let FrameView::Args(_, _, vals, _) = fv {
                                assert(vals == values_view(values@));
                                assert(0 <= k < vals.len());
                                assert(value_ok(vals[k], m.env.len()));
                            }
                        }
                        self.call(callee, values, line)
                    },
                }
            },
            _ => {
                self.set_mode(Mode::Exec);
                Action::Continue
            },
        }
    }

    /// One step.
    fn step(&mut self) -> (a: Action)
        requires
            machine_wf(old(self)@),
        ensures
            machine_wf(final(self)@),
            (final(self)@, a@) == machine_next(old(self)@),
    {
        let mode = self.take_mode();
        match mode {
            Mode::Exec => self.proceed(),
            Mode::Eval { expr } => self.eval(expr),
            Mode::Value { value } => self.deliver(value),
            Mode::Unwind { signal } => self.unwind(signal),
            Mode::Wait => {
                self.set_mode(Mode::Wait);
                Action::Continue
            },
        }
    }
}


impl Machine {
    /// Loads a program to run next, keeping the variables and the current
    /// scope.
    fn load(&mut self, program: Vec<Stmt>)
        requires
            machine_wf(old(self)@),
        ensures
            machine_wf(final(self)@),
            final(self)@ == load_spec(old(self)@, stmts_view(program@)),
    {
        let mut frames: Vec<Frame> = Vec::new();
        frames.push(Frame::Run { list: Rc::new(program), next: 0 });
        self.frames = frames;
        assert(self@.frames =~= seq![FrameView::Run(stmts_view(program@), 0)]);
        self.set_mode(Mode::Exec);
    }

    /// Hands the host's number to a machine that waits for one.
    fn supply(&mut self, value: Number)
        requires
            machine_wf(old(self)@),
        ensures
            machine_wf(final(self)@),
            final(self)@ == supply_spec(old(self)@, value.bits),
    {
        if let Mode::Wait = self.mode {
            self.set_mode(Mode::Value { value: VariableValue::Num { value } });
        }
    }
}

/// The scopes a new interpreter starts with: the global scope, holding the
/// native function `clock`.
pub open spec fn initial_env() -> EnvView {
    seq![
        ScopeView {
            vars: seq![("clock"@, ValueView::Function(CallableView::NativeClock))],
            parent: None,
        },
    ]
}

/// A Lox interpreter: the variables of the program run so far, and where
/// the program being run is.
///
/// It runs a program one step at a time. The host loads a program with
/// `interpret`, then calls `step` and does what each step asks until one
/// answers `Done`: print a line, or compute a number and hand it back with
/// `supply`. Variables and functions stay defined from one program to the
/// next, so that a prompt can run line after line.
pub struct Interpreter {
    machine: Machine,
}

impl View for Interpreter {
    type V = MachineView;

    closed spec fn view(&self) -> MachineView {
        self.machine@
    }
}

impl Interpreter {
    /// The machine's invariant holds. Every function here keeps it, and
    /// `new` makes it hold.
    pub open spec fn wf(&self) -> bool {
        machine_wf(self@)
    }

    /// An interpreter with only `clock` defined, and no program loaded.
    pub fn new() -> (r: Self)
        ensures
            r@ == (MachineView {
                env: initial_env(),
                scope: 0,
                frames: Seq::empty(),
                mode: ModeView::Exec,
            }),
            machine_wf(r@),
    {
        let env = Environment::new();
        let frames: Vec<Frame> = Vec::new();
        let machine = Machine { env, scope: 0, frames, mode: Mode::Exec };
        assert(machine@.frames =~= Seq::empty());
        assert(value_ok(ValueView::Function(CallableView::NativeClock), 1));
        assert(machine_wf(machine@));
        Interpreter { machine }
    }

    /// Loads the program `stmts` to run next.
    pub fn interpret(&mut self, stmts: Vec<Stmt>)
        requires
            old(self).wf(),
        ensures
            final(self)@ == load_spec(old(self)@, stmts_view(stmts@)),
            machine_wf(final(self)@),
    {
        self.machine.load(stmts);
    }

    /// Runs one step of the loaded program and says what the host is to do.
    /// Every step keeps the machine's invariant.
    pub fn step(&mut self) -> (a: Action)
        requires
            old(self).wf(),
        ensures
            (final(self)@, a@) == machine_next(old(self)@),
            machine_wf(final(self)@),
    {
        self.machine.step()
    }

    /// Hands back the number that the last step asked the host to compute.
    pub fn supply(&mut self, value: Number)
        requires
            old(self).wf(),
        ensures
            final(self)@ == supply_spec(old(self)@, value.bits),
            machine_wf(final(self)@),
    {
        self.machine.supply(value);
    }
}


// ---------------------------------------------------------------------------
// Scopes are never freed: closures may still refer to a scope the program
// has left.
// ---------------------------------------------------------------------------

/// `e2` keeps every scope of `e1`, each nested where it was.
pub open spec fn env_extends(e1: EnvView, e2: EnvView) -> bool {
    &&& e1.len() <= e2.len()
    &&& forall|i: int| 0 <= i < e1.len() ==> (#[trigger] e2[i]).parent == e1[i].parent
}

proof fn lemma_extends_set(e: EnvView, i: int, name: Seq<char>, v: ValueView)
    requires
        0 <= i < e.len(),
    ensures
        env_extends(e, env_set(e, i, name, v)),
        env_set(e, i, name, v).len() == e.len(),
{
    let e2 = env_set(e, i, name, v);
    assert forall|k: int| 0 <= k < e.len() implies (#[trigger] e2[k]).parent == e[k].parent by {}
}

proof fn lemma_extends_push(e: EnvView, s: ScopeView)
    ensures
        env_extends(e, e.push(s)),
{
    assert forall|k: int| 0 <= k < e.len() implies (#[trigger] e.push(s)[k]).parent == e[k].parent by {}
}

proof fn lemma_extends_trans(a: EnvView, b: EnvView, c: EnvView)
    requires
        env_extends(a, b),
        env_extends(b, c),
    ensures
        env_extends(a, c),
{
    assert forall|k: int| 0 <= k < a.len() implies (#[trigger] c[k]).parent == a[k].parent by {
        assert(c[k].parent == b[k].parent);
    }
}

proof fn lemma_extends_bind(
    e: EnvView,
    i: int,
    params: Seq<(u32, Seq<char>)>,
    args: Seq<ValueView>,
    k: nat,
)
    requires
        0 <= i < e.len(),
    ensures
        env_extends(e, bind_params(e, i, params, args, k)),
        bind_params(e, i, params, args, k).len() == e.len(),
    decreases k,
{
    if k > 0 {
        let b = bind_params(e, i, params, args, (k - 1) as nat);
        lemma_extends_bind(e, i, params, args, (k - 1) as nat);
        lemma_extends_set(b, i, params[k - 1].1, args[k - 1]);
        lemma_extends_trans(e, b, bind_params(e, i, params, args, k));
    }
}

proof fn lemma_extends_refl(e: EnvView)
    ensures
        env_extends(e, e),
{
}

proof fn lemma_start_extends(m: MachineView, s: StmtView)
    requires
        m.scope < m.env.len(),
    ensures
        env_extends(m.env, start_spec(m, s).env),
{
    lemma_extends_refl(m.env);
    match s {
        StmtView::Block(_) => lemma_extends_push(
            m.env,
            ScopeView { vars: Seq::empty(), parent: Some(m.scope) },
        ),
        StmtView::Function(_, name, params, body) => lemma_extends_set(
            m.env,
            m.scope as int,
            name,
            ValueView::Function(CallableView::Function { name, params, body, closure: m.scope }),
        ),
        _ => {},
    }
}

proof fn lemma_call_extends(m: MachineView, callee: ValueView, args: Seq<ValueView>, line: u32)
    ensures
        env_extends(m.env, call_spec(m, callee, args, line).0.env),
{
    lemma_extends_refl(m.env);
    if let ValueView::Function(CallableView::Function { name: _, params, body: _, closure }) = callee {
        if args.len() == params.len() {
            let e1 = m.env.push(ScopeView { vars: Seq::empty(), parent: Some(closure) });
            lemma_extends_push(m.env, ScopeView { vars: Seq::empty(), parent: Some(closure) });
            lemma_extends_bind(e1, m.env.len() as int, params, args, params.len());
            lemma_extends_trans(m.env, e1, bind_params(e1, m.env.len() as int, params, args, params.len()));
        }
    }
}

/// A step of the machine never frees a scope, nor changes the scope any
/// scope is nested in: closures may still refer to scopes the program has
/// left.
pub proof fn law_step_keeps_scopes(m: MachineView)
    requires
        machine_wf(m),
    ensures
        env_extends(m.env, machine_next(m).0.env),
{
    let idle = with_mode(m, ModeView::Exec);
    lemma_extends_refl(m.env);
    match m.mode {
        ModeView::Exec => {
            if m.frames.len() > 0 {
                let p = pop(idle);
                match m.frames.last() {
                    FrameView::Run(list, next) => if next < list.len() {
                        lemma_start_extends(
                            MachineView { frames: p.frames.push(FrameView::Run(list, (next + 1) as usize)), ..p },
                            list[next as int],
                        );
                    },
                    FrameView::Args(call, c, vals, line) => lemma_call_extends(p, c, vals, line),
                    _ => {},
                }
            }
        },
        ModeView::Value(v) => {
            if m.frames.len() > 0 {
                let p = pop(idle);
                match m.frames.last() {
                    FrameView::Define(name) => lemma_extends_set(p.env, p.scope as int, name, v),
                    FrameView::Branch(t, e) => {
                        lemma_start_extends(p, t);
                        if let Some(b) = e {
                            lemma_start_extends(p, b);
                        }
                    },
                    FrameView::Loop(_, b) => lemma_start_extends(idle, b),
                    FrameView::Assign(name, _) => {
                        if let Some(o) = env_owner(p.env, p.scope as int, name) {
                            crate::runtime::lemma_owner_props(p.env, p.scope as int, name);
                            lemma_extends_set(p.env, o, name, v);
                        }
                    },
                    _ => {},
                }
            }
        },
        _ => {},
    }
}


// ---------------------------------------------------------------------------
// What a read gives back of a write.
// ---------------------------------------------------------------------------

/// When a `var` statement receives its value, the next step defines the
/// variable in the current scope, and reading it there gives that value.
pub proof fn law_var_then_read(m: MachineView, name: Seq<char>, v: ValueView)
    requires
        machine_wf(m),
        m.frames.len() > 0,
        m.frames.last() == FrameView::Define(name),
        m.mode == ModeView::Value(v),
    ensures
        env_get(machine_next(m).0.env, machine_next(m).0.scope as int, name) == Some(v),
{
    crate::runtime::law_define_then_get(m.env, m.scope as int, name, v);
}

/// When an assignment receives its value and its variable is defined, the
/// next step stores the value, gives it as the assignment's value, and
/// reading the variable from the current scope gives it back.
pub proof fn law_assign_then_read(m: MachineView, name: Seq<char>, line: u32, v: ValueView)
    requires
        machine_wf(m),
        m.frames.len() > 0,
        m.frames.last() == FrameView::Assign(name, line),
        m.mode == ModeView::Value(v),
        env_get(m.env, m.scope as int, name) is Some,
    ensures
        machine_next(m).0.mode == ModeView::Value(v),
        env_get(machine_next(m).0.env, machine_next(m).0.scope as int, name) == Some(v),
{
    crate::runtime::law_owner_iff_defined(m.env, m.scope as int, name);
    crate::runtime::law_assign_then_get(m.env, m.scope as int, name, v);
}

/// Reading a variable that no scope defines ends in the undefined-variable
/// error, with the line of the read.
pub proof fn law_read_undefined(m: MachineView, e: ExprInfoView, name: Seq<char>)
    requires
        machine_wf(m),
        m.mode == ModeView::Eval(e),
        *e.expr == ExprView::Variable(name),
        env_get(m.env, m.scope as int, name) is None,
    ensures
        machine_next(m).0.mode == ModeView::Unwind(
            SignalView::Error(undefined_variable_view(e.line, name)),
        ),
{
}


/// Loading a program keeps every variable and the current scope, so that
/// what one program defines the next can use.
pub proof fn law_load_keeps_variables(m: MachineView, program: Seq<StmtView>)
    ensures
        load_spec(m, program).env == m.env,
        load_spec(m, program).scope == m.scope,
        machine_wf(m) ==> machine_wf(load_spec(m, program)),
{
}

/// Leaving a call, by the end of its body or by `return`, goes back to the
/// scope the call was made in, with nil or the returned value as the
/// call's value.
pub proof fn law_call_returns_to_caller(m: MachineView, caller: usize, v: ValueView, line: u32)
    requires
        machine_wf(m),
        m.frames.len() > 0,
        m.frames.last() == FrameView::EndCall(caller),
    ensures
        m.mode == ModeView::Exec ==> machine_next(m).0.scope == caller && machine_next(m).0.mode
            == ModeView::Value(ValueView::Nil),
        m.mode == ModeView::Unwind(SignalView::Return(v, line)) ==> machine_next(m).0.scope
            == caller && machine_next(m).0.mode == ModeView::Value(v),
{
}

/// Leaving a block, normally or with an error or `return` on its way out,
/// goes back to the scope the block was entered from.
pub proof fn law_block_exit_restores_scope(m: MachineView, outer: usize)
    requires
        machine_wf(m),
        m.frames.len() > 0,
        m.frames.last() == FrameView::EndBlock(outer),
        m.mode is Exec || m.mode is Unwind,
    ensures
        machine_next(m).0.scope == outer,
        machine_next(m).0.frames == m.frames.drop_last(),
{
}


// ---------------------------------------------------------------------------
// Leaving a block or a call, over any number of steps.
// ---------------------------------------------------------------------------

/// The machine after `n` steps.
pub open spec fn run(m: MachineView, n: nat) -> MachineView
    decreases n,
{
    if n == 0 {
        m
    } else {
        machine_next(run(m, (n - 1) as nat)).0
    }
}

/// The scope a frame gives back when it is left: the scope a block was
/// entered from, or the scope a call was made in.
pub open spec fn return_scope(f: FrameView) -> Option<usize> {
    match f {
        FrameView::EndBlock(o) => Some(o),
        FrameView::EndCall(c) => Some(c),
        _ => None,
    }
}

/// `ys` keeps every frame of `xs` but the innermost one.
pub open spec fn keeps_below(xs: Seq<FrameView>, ys: Seq<FrameView>) -> bool {
    &&& ys.len() + 1 >= xs.len()
    &&& forall|i: int| 0 <= i < xs.len() - 1 ==> #[trigger] ys[i] == xs[i]
}

/// `ys` is `xs` with frames pushed on it.
pub open spec fn extends_frames(xs: Seq<FrameView>, ys: Seq<FrameView>) -> bool {
    &&& ys.len() >= xs.len()
    &&& forall|i: int| 0 <= i < xs.len() ==> #[trigger] ys[i] == xs[i]
}

proof fn lemma_start_frames(m: MachineView, s: StmtView)
    ensures
        extends_frames(m.frames, start_spec(m, s).frames),
{
}

proof fn lemma_call_frames(m: MachineView, c: ValueView, vals: Seq<ValueView>, line: u32)
    ensures
        extends_frames(m.frames, call_spec(m, c, vals, line).0.frames),
{
}

proof fn lemma_extends_keeps(xs: Seq<FrameView>, ys: Seq<FrameView>, zs: Seq<FrameView>)
    requires
        xs.len() > 0,
        ys == xs.drop_last(),
        extends_frames(ys, zs),
    ensures
        keeps_below(xs, zs),
{
}

/// A step changes at most the innermost frame, and pushes frames after it.
proof fn lemma_step_keeps_below(x: MachineView)
    ensures
        keeps_below(x.frames, machine_next(x).0.frames),
{
    let idle = with_mode(x, ModeView::Exec);
    if x.frames.len() > 0 {
        let p = pop(idle);
        match x.mode {
            ModeView::Exec => {
                match x.frames.last() {
                    FrameView::Run(list, next) => if next < list.len() {
                        let q = MachineView {
                            frames: p.frames.push(FrameView::Run(list, (next + 1) as usize)),
                            ..p
                        };
                        lemma_start_frames(q, list[next as int]);
                    },
                    FrameView::Args(call, c, vals, line) => {
                        lemma_call_frames(p, c, vals, line);
                        lemma_extends_keeps(x.frames, p.frames, call_spec(p, c, vals, line).0.frames);
                    },
                    _ => {},
                }
            },
            ModeView::Value(v) => {
                match x.frames.last() {
                    FrameView::Branch(t, e) => {
                        lemma_start_frames(p, t);
                        if let Some(b) = e {
                            lemma_start_frames(p, b);
                        }
                    },
                    FrameView::Loop(_, b) => lemma_start_frames(idle, b),
                    _ => {},
                }
            },
            _ => {},
        }
    }
}

/// A block or call frame that stays is left as it was; one that goes was
/// the innermost frame, and its scope becomes the current one.
proof fn lemma_step_boundary(x: MachineView, k: int)
    requires
        0 <= k < x.frames.len(),
        return_scope(x.frames[k]) is Some,
    ensures
        machine_next(x).0.frames.len() >= k,
        machine_next(x).0.frames.take(k) == x.frames.take(k),
        machine_next(x).0.frames.len() > k ==> machine_next(x).0.frames[k] == x.frames[k],
        machine_next(x).0.frames.len() == k ==> machine_next(x).0.scope == return_scope(
            x.frames[k],
        ).unwrap(),
{
    lemma_step_keeps_below(x);
    let y = machine_next(x).0;
    if k == x.frames.len() - 1 {
        let idle = with_mode(x, ModeView::Exec);
        match x.mode {
            ModeView::Eval(e) => {},
            _ => {},
        }
        assert(y.frames.len() >= k);
    }
    assert(y.frames.take(k) =~= x.frames.take(k));
}

/// A block or a call, once entered, is left with the scope it was entered
/// from current again, however it ends: normally, with an error, or with a
/// `return` passing through. Entering a block pushes `EndBlock` with the
/// current scope, and a call pushes `EndCall` with the caller's scope; if
/// after `n` steps that frame is gone for the first time, the frames below
/// it are as they were and its scope is the current one.
pub proof fn law_scope_restored(m: MachineView, k: nat, n: nat)
    requires
        k < m.frames.len(),
        return_scope(m.frames[k as int]) is Some,
        forall|j: nat| j < n ==> (#[trigger] run(m, j)).frames.len() > k,
        run(m, n).frames.len() <= k,
    ensures
        run(m, n).scope == return_scope(m.frames[k as int]).unwrap(),
        run(m, n).frames == m.frames.take(k as int),
{
    assert(n > 0) by {
        if n == 0 {
            assert(run(m, 0) == m);
        }
    }
    assert forall|i: nat| i <= (n - 1) as nat implies (#[trigger] run(m, i)).frames.len() > k by {
        assert(i < n);
    }
    lemma_frame_kept(m, k, (n - 1) as nat);
    let x = run(m, (n - 1) as nat);
    assert(x.frames[k as int] == x.frames.take(k as int + 1)[k as int]);
    assert(m.frames[k as int] == m.frames.take(k as int + 1)[k as int]);
    lemma_step_boundary(x, k as int);
    assert(run(m, n) == machine_next(x).0);
    assert(x.frames.take(k as int) =~= m.frames.take(k as int));
    assert(machine_next(x).0.frames =~= m.frames.take(k as int));
}

/// While the frame stays, it and the frames below it are as they were.
proof fn lemma_frame_kept(m: MachineView, k: nat, j: nat)
    requires
        k < m.frames.len(),
        return_scope(m.frames[k as int]) is Some,
        forall|i: nat| i <= j ==> (#[trigger] run(m, i)).frames.len() > k,
    ensures
        run(m, j).frames.take(k as int + 1) == m.frames.take(k as int + 1),
    decreases j,
{
    if j > 0 {
        let x = run(m, (j - 1) as nat);
        assert(run(m, (j - 1) as nat).frames.len() > k);
        lemma_frame_kept(m, k, (j - 1) as nat);
        assert(x.frames[k as int] == m.frames.take(k as int + 1)[k as int]);
        lemma_step_boundary(x, k as int);
        let y = machine_next(x).0;
        assert(run(m, j) == y);
        assert(y.frames.take(k as int + 1) =~= x.frames.take(k as int + 1)) by {
            assert(y.frames.take(k as int) =~= x.frames.take(k as int));
        }
    } else {
        assert(run(m, 0) == m);
    }
}

/// A block is run in a fresh scope nested in the current one, and once the
/// block is left, however it ends (normally, with an error, or with a
/// `return` passing through), the scope it was started in is current again
/// and the frames below it are as they were.
pub proof fn law_block_restores_scope(m: MachineView, list: Seq<StmtView>, n: nat)
    ensures
        ({
            let m1 = start_spec(m, StmtView::Block(list));
            &&& m1.scope == m.env.len() as usize
            &&& m1.env.len() == m.env.len() + 1
            &&& m1.env.last().parent == Some(m.scope)
            &&& m1.env.take(m.env.len() as int) == m.env
            &&& (forall|j: nat| j < n ==> (#[trigger] run(m1, j)).frames.len() > m.frames.len())
                && run(m1, n).frames.len() <= m.frames.len() ==> {
                &&& run(m1, n).scope == m.scope
                &&& run(m1, n).frames == m.frames
            }
        }),
{
    let m1 = start_spec(m, StmtView::Block(list));
    let k = m.frames.len();
    assert(m1.env.take(m.env.len() as int) =~= m.env);
    if (forall|j: nat| j < n ==> (#[trigger] run(m1, j)).frames.len() > k) && run(m1, n).frames.len()
        <= k {
        assert(m1.frames[k as int] == FrameView::EndBlock(m.scope));
        law_scope_restored(m1, k, n);
        assert(m1.frames.take(k as int) =~= m.frames);
    }
}

/// A call of a function of the program runs its body in a fresh scope nested
/// in the function's closure, and once the call is left, however it ends
/// (normally, by `return`, or with an error), the caller's scope is current
/// again and the frames below it are as they were. Any other call leaves the
/// scope and the frames as they were.
pub proof fn law_call_restores_scope(m: MachineView, callee: ValueView, args: Seq<ValueView>, line: u32, n: nat)
    ensures
        ({
            let m1 = call_spec(m, callee, args, line).0;
            let k = m.frames.len();
            let left = (forall|j: nat| j < n ==> (#[trigger] run(m1, j)).frames.len() > k)
                && run(m1, n).frames.len() <= k;
            match callee {
                ValueView::Function(CallableView::Function { name: _, params, body: _, closure }) => if args.len()
                    == params.len() {
                    &&& m1.scope == m.env.len() as usize
                    &&& m1.env.len() == m.env.len() + 1
                    &&& m1.env.last().parent == Some(closure)
                    &&& left ==> run(m1, n).scope == m.scope && run(m1, n).frames == m.frames
                } else {
                    m1.scope == m.scope && m1.frames == m.frames
                },
                _ => m1.scope == m.scope && m1.frames == m.frames,
            }
        }),
{
    let m1 = call_spec(m, callee, args, line).0;
    let k = m.frames.len();
    if let ValueView::Function(CallableView::Function { name: _, params, body: _, closure }) = callee {
        if args.len() == params.len() {
            let e1 = m.env.push(ScopeView { vars: Seq::empty(), parent: Some(closure) });
            lemma_extends_bind(e1, m.env.len() as int, params, args, params.len());
            assert(m1.env[m.env.len() as int].parent == e1[m.env.len() as int].parent);
            if (forall|j: nat| j < n ==> (#[trigger] run(m1, j)).frames.len() > k)
                && run(m1, n).frames.len() <= k {
                assert(m1.frames[k as int] == FrameView::EndCall(m.scope));
                law_scope_restored(m1, k, n);
                assert(m1.frames.take(k as int) =~= m.frames);
            }
        }
    }
}

// ---------------------------------------------------------------------------
// What the operators and statements mean.
// ---------------------------------------------------------------------------

/// What the machine does once both operands of `l op r` have their values,
/// on top of the frames of `m`.
pub open spec fn binary_result(m: MachineView, op: BinaryOp, l: ValueView, r: ValueView, line: u32) -> ModeView {
    machine_next(
        MachineView {
            frames: m.frames.push(FrameView::Binary(op, l, line)),
            mode: ModeView::Value(r),
            ..m
        },
    ).0.mode
}

/// The comparison operators on numbers are IEEE-754's: `a < b` and `a > b`
/// are strict, `a <= b` holds when `a < b` or `a == b`, `a >= b` when
/// `a > b` or `a == b`, and `!=` is the negation of `==`.
pub proof fn law_comparisons(m: MachineView, a: u64, b: u64, line: u32)
    ensures
        binary_result(m, BinaryOp::Less, ValueView::Num(a), ValueView::Num(b), line) == ModeView::Value(
            ValueView::Boolean(number_lt(a, b)),
        ),
        binary_result(m, BinaryOp::Greater, ValueView::Num(a), ValueView::Num(b), line)
            == ModeView::Value(ValueView::Boolean(number_lt(b, a))),
        binary_result(m, BinaryOp::LessEquals, ValueView::Num(a), ValueView::Num(b), line)
            == ModeView::Value(ValueView::Boolean(number_lt(a, b) || number_eq(a, b))),
        binary_result(m, BinaryOp::GreaterEquals, ValueView::Num(a), ValueView::Num(b), line)
            == ModeView::Value(ValueView::Boolean(number_lt(b, a) || number_eq(a, b))),
        binary_result(m, BinaryOp::Equals, ValueView::Num(a), ValueView::Num(b), line)
            == ModeView::Value(ValueView::Boolean(number_eq(a, b))),
        binary_result(m, BinaryOp::NotEquals, ValueView::Num(a), ValueView::Num(b), line)
            == ModeView::Value(ValueView::Boolean(!number_eq(a, b))),
{
}

/// Every number but NaN is equal to itself, so `x >= x` and `x <= x` are
/// true and `x < x` and `x > x` false; with NaN all four are false.
pub proof fn law_compare_with_itself(m: MachineView, a: u64, line: u32)
    ensures
        binary_result(m, BinaryOp::GreaterEquals, ValueView::Num(a), ValueView::Num(a), line)
            == ModeView::Value(ValueView::Boolean(!is_nan(a))),
        binary_result(m, BinaryOp::LessEquals, ValueView::Num(a), ValueView::Num(a), line)
            == ModeView::Value(ValueView::Boolean(!is_nan(a))),
        binary_result(m, BinaryOp::Greater, ValueView::Num(a), ValueView::Num(a), line)
            == ModeView::Value(ValueView::Boolean(false)),
        binary_result(m, BinaryOp::Less, ValueView::Num(a), ValueView::Num(a), line)
            == ModeView::Value(ValueView::Boolean(false)),
{
    law_comparisons(m, a, a, line);
}

/// An `if` runs exactly one of its branches, from the state it started in:
/// once its condition has the value `v`, the machine is the one that starts
/// the then-branch where `v` is truthy, else the one that starts the
/// else-branch, or goes on with nothing started where there is none.
pub proof fn law_if_runs_one_branch(
    m: MachineView,
    c: ExprInfoView,
    t: StmtView,
    e: Option<StmtView>,
    v: ValueView,
)
    ensures
        ({
            let s = StmtView::If(
                c,
                Box::new(t),
                match e {
                    Some(b) => Some(Box::new(b)),
                    None => None,
                },
            );
            let m1 = start_spec(m, s);
            let m2 = machine_next(with_mode(m1, ModeView::Value(v))).0;
            &&& m1.mode == ModeView::Eval(c)
            &&& truthy(v) ==> m2 == start_spec(m, t)
            &&& !truthy(v) ==> m2 == match e {
                Some(b) => start_spec(m, b),
                None => with_mode(m, ModeView::Exec),
            }
        }),
{
    let s = StmtView::If(
        c,
        Box::new(t),
        match e {
            Some(b) => Some(Box::new(b)),
            None => None,
        },
    );
    let m1 = start_spec(m, s);
    assert(m1.frames.drop_last() =~= m.frames);
    let p = pop(with_mode(with_mode(m1, ModeView::Value(v)), ModeView::Exec));
    assert(p == with_mode(m, ModeView::Exec));
}

/// What the unary operators do to their operand's value `v`: `!` gives
/// `true` exactly when `v` is falsy (`false` or `nil`); `-` flips the sign
/// of a number, and stops the program on the operator's line for anything
/// else.
pub proof fn law_unary_meaning(m: MachineView, v: ValueView, line: u32)
    ensures
        ({
            let at = |op: UnaryOp|
                machine_next(
                    MachineView {
                        frames: m.frames.push(FrameView::Unary(op, line)),
                        mode: ModeView::Value(v),
                        ..m
                    },
                ).0.mode;
            &&& at(UnaryOp::Not) == ModeView::Value(
                ValueView::Boolean(v == ValueView::Boolean(false) || v == ValueView::Nil),
            )
            &&& at(UnaryOp::Negative) == match v {
                ValueView::Num(b) => ModeView::Value(ValueView::Num(b ^ 0x8000_0000_0000_0000u64)),
                _ => ModeView::Unwind(
                    SignalView::Error(
                        ErrorView::Runtime { line, message: "Operand must be a number."@ },
                    ),
                ),
            }
        }),
{
}

/// The machine and the action once both operands of `l op r` have their
/// values, on top of the frames of `m`.
pub open spec fn binary_step(m: MachineView, op: BinaryOp, l: ValueView, r: ValueView, line: u32) -> (
    MachineView,
    ActionView,
) {
    machine_next(
        MachineView {
            frames: m.frames.push(FrameView::Binary(op, l, line)),
            mode: ModeView::Value(r),
            ..m
        },
    )
}

/// Arithmetic on two numbers is asked of the host, with the operands in
/// their order, and the machine waits for the result, which becomes the
/// expression's value; `+` joins two strings, left first; any other mix of
/// operands stops the program on the operator's line.
pub proof fn law_arithmetic(m: MachineView, a: u64, b: u64, x: Seq<char>, y: Seq<char>, l: ValueView, r: ValueView, line: u32, bits: u64)
    ensures
        binary_step(m, BinaryOp::Plus, ValueView::Num(a), ValueView::Num(b), line).1
            == ActionView::Compute(NumOpView::Add(a, b)),
        binary_step(m, BinaryOp::Minus, ValueView::Num(a), ValueView::Num(b), line).1
            == ActionView::Compute(NumOpView::Subtract(a, b)),
        binary_step(m, BinaryOp::Multiply, ValueView::Num(a), ValueView::Num(b), line).1
            == ActionView::Compute(NumOpView::Multiply(a, b)),
        binary_step(m, BinaryOp::Divide, ValueView::Num(a), ValueView::Num(b), line).1
            == ActionView::Compute(NumOpView::Divide(a, b)),
        (supply_spec(binary_step(m, BinaryOp::Minus, ValueView::Num(a), ValueView::Num(b), line).0, bits)
            == MachineView { mode: ModeView::Value(ValueView::Num(bits)), ..m }),
        binary_result(m, BinaryOp::Plus, ValueView::Str(x), ValueView::Str(y), line)
            == ModeView::Value(ValueView::Str(x + y)),
        (!(l is Num && r is Num) && !(l is Str && r is Str) ==> binary_result(m, BinaryOp::Plus, l, r, line)
            == ModeView::Unwind(
            SignalView::Error(
                ErrorView::Runtime { line, message: "Operands must be two numbers or two strings."@ },
            ),
        )),
        (!(l is Num && r is Num) ==> {
            &&& binary_result(m, BinaryOp::Minus, l, r, line) == numbers_error(line)
            &&& binary_result(m, BinaryOp::Multiply, l, r, line) == numbers_error(line)
            &&& binary_result(m, BinaryOp::Divide, l, r, line) == numbers_error(line)
            &&& binary_result(m, BinaryOp::Less, l, r, line) == numbers_error(line)
            &&& binary_result(m, BinaryOp::GreaterEquals, l, r, line) == numbers_error(line)
        }),
        (numbers_error(line) == ModeView::Unwind(
            SignalView::Error(ErrorView::Runtime { line, message: "Operands must be numbers."@ }),
        )),
{
    let w = binary_step(m, BinaryOp::Minus, ValueView::Num(a), ValueView::Num(b), line).0;
    assert(w.frames =~= m.frames);
}

/// `==` and `!=`: values of different kinds are never equal, `nil` equals
/// `nil`, booleans and strings are equal when they are the same, numbers
/// as IEEE-754 says; `!=` is always the negation of `==`.
pub proof fn law_equality(m: MachineView, l: ValueView, r: ValueView, line: u32)
    ensures
        binary_result(m, BinaryOp::NotEquals, l, r, line) == ModeView::Value(
            ValueView::Boolean(!binary_result(m, BinaryOp::Equals, l, r, line)->Value_0->Boolean_0),
        ),
        binary_result(m, BinaryOp::Equals, l, r, line) is Value,
        binary_result(m, BinaryOp::Equals, l, r, line)->Value_0 is Boolean,
        ({
            let eq = binary_result(m, BinaryOp::Equals, l, r, line)->Value_0->Boolean_0;
            &&& match (l, r) {
                (ValueView::Num(a), ValueView::Num(b)) => eq == number_eq(a, b),
                (ValueView::Str(a), ValueView::Str(b)) => eq == (a == b),
                (ValueView::Boolean(a), ValueView::Boolean(b)) => eq == (a == b),
                (ValueView::Nil, ValueView::Nil) => eq,
                (ValueView::Function(a), ValueView::Function(b)) => eq == (a == b),
                _ => !eq,
            }
        }),
{
}

/// `or` gives its left value where that is truthy, without evaluating the
/// right operand, and else evaluates the right operand for the result;
/// `and` gives its left value where that is falsy (`false` or `nil`), and
/// else evaluates the right operand.
pub proof fn law_logic_short_circuit(m: MachineView, right: ExprInfoView, v: ValueView, line: u32)
    ensures
        ({
            let falsy = v == ValueView::Boolean(false) || v == ValueView::Nil;
            let after = |op: BinaryOp|
                machine_next(
                    MachineView {
                        frames: m.frames.push(FrameView::Right(op, right, line)),
                        mode: ModeView::Value(v),
                        ..m
                    },
                ).0;
            &&& !falsy ==> after(BinaryOp::Or) == with_mode(m, ModeView::Value(v))
            &&& falsy ==> after(BinaryOp::Or) == with_mode(m, ModeView::Eval(right))
            &&& falsy ==> after(BinaryOp::And) == with_mode(m, ModeView::Value(v))
            &&& !falsy ==> after(BinaryOp::And) == with_mode(m, ModeView::Eval(right))
        }),
{
    let q = MachineView { frames: m.frames.push(FrameView::Right(BinaryOp::Or, right, line)), ..m };
    assert(q.frames.drop_last() =~= m.frames);
    let q2 = MachineView { frames: m.frames.push(FrameView::Right(BinaryOp::And, right, line)), ..m };
    assert(q2.frames.drop_last() =~= m.frames);
}

/// A `while` loop evaluates its condition, runs its body while the
/// condition is truthy, keeping the loop to come back to, and ends, with
/// the frames it started with, once the condition is falsy.
pub proof fn law_while_loop(m: MachineView, c: ExprInfoView, body: StmtView, v: ValueView)
    ensures
        ({
            let m1 = start_spec(m, StmtView::While(c, Box::new(body)));
            let m2 = machine_next(m1).0;
            let m3 = machine_next(with_mode(m2, ModeView::Value(v))).0;
            &&& m2 == MachineView { frames: m.frames.push(FrameView::Loop(c, body)), mode: ModeView::Eval(c), ..m }
            &&& (v == ValueView::Boolean(false) || v == ValueView::Nil) ==> m3 == with_mode(m, ModeView::Exec)
            &&& !(v == ValueView::Boolean(false) || v == ValueView::Nil) ==> m3 == start_spec(
                MachineView { frames: m.frames.push(FrameView::Loop(c, body)), ..m },
                body,
            )
        }),
{
    let m1 = start_spec(m, StmtView::While(c, Box::new(body)));
    assert(m1.frames.drop_last() =~= m.frames);
}

/// `print` hands the host the text of its value (a number as its encoding,
/// to be formatted) and goes on with the frames it started with.
pub proof fn law_print(m: MachineView, v: ValueView)
    ensures
        ({
            let r = machine_next(
                MachineView { frames: m.frames.push(FrameView::Print), mode: ModeView::Value(v), ..m },
            );
            &&& r.0 == with_mode(m, ModeView::Exec)
            &&& r.1 == match v {
                ValueView::Num(b) => ActionView::PrintNumber(b),
                ValueView::Str(s) => ActionView::Print(s),
                ValueView::Boolean(true) => ActionView::Print("true"@),
                ValueView::Boolean(false) => ActionView::Print("false"@),
                ValueView::Nil => ActionView::Print("nil"@),
                ValueView::Function(CallableView::Function { name, .. }) => ActionView::Print(
                    "<fn "@ + name + ">"@,
                ),
                ValueView::Function(CallableView::NativeClock) => ActionView::Print("<native fn>"@),
            }
        }),
{
    let q = MachineView { frames: m.frames.push(FrameView::Print), ..m };
    assert(q.frames.drop_last() =~= m.frames);
}

} // verus!
