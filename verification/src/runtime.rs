use vstd::prelude::*;

use std::rc::Rc;

use crate::ast::{param_view, rc_clone, stmts_view, Stmt, StmtView};
use crate::errors::{undefined_variable_view, ErrorView, InterpreterError};

verus! {

/// A Lox number, held as the bits of its IEEE-754 binary64 encoding. The
/// arithmetic on it is floating point and is left to the host that runs
/// the program; the library only moves numbers around and compares them
/// for equality.
#[derive(Clone, Copy, PartialEq, Eq, Structural, Debug)]
pub struct Number {
    pub bits: u64,
}

/// Whether the encoding `b` is a NaN: all exponent bits set, and a
/// non-zero fraction.
pub open spec fn is_nan(b: u64) -> bool {
    (b & 0x7ff0_0000_0000_0000u64) == 0x7ff0_0000_0000_0000u64 && (b & 0x000f_ffff_ffff_ffffu64)
        != 0
}

/// Whether the encoding `b` is zero (`+0.0` or `-0.0`).
pub open spec fn is_zero(b: u64) -> bool {
    (b & 0x7fff_ffff_ffff_ffffu64) == 0
}

/// IEEE-754 equality of two encoded numbers: no NaN equals anything, the
/// two zeros are equal, and otherwise equal numbers have equal encodings.
pub open spec fn number_eq(a: u64, b: u64) -> bool {
    !is_nan(a) && !is_nan(b) && (a == b || (is_zero(a) && is_zero(b)))
}

/// The encoding of `-x` for the encoding `a` of `x`: the sign bit flipped.
pub open spec fn number_neg(a: u64) -> u64 {
    a ^ 0x8000_0000_0000_0000u64
}

/// Whether the sign bit of the encoding `a` is set.
pub open spec fn sign_set(a: u64) -> bool {
    a >= 0x8000_0000_0000_0000u64
}

/// IEEE-754 `<` on two encoded numbers: false when either is a NaN or both
/// are zeros; otherwise positive encodings grow with the number and
/// negative ones shrink, and every negative number is below every positive
/// one.
pub open spec fn number_lt(a: u64, b: u64) -> bool {
    if is_nan(a) || is_nan(b) || (is_zero(a) && is_zero(b)) {
        false
    } else if !sign_set(a) && !sign_set(b) {
        a < b
    } else if sign_set(a) && sign_set(b) {
        b < a
    } else {
        sign_set(a)
    }
}

/// IEEE-754 `<=` on two encoded numbers.
pub open spec fn number_le(a: u64, b: u64) -> bool {
    number_lt(a, b) || number_eq(a, b)
}

impl Number {
    /// Negation (`-x` on `f64`).
    pub fn negate(&self) -> (r: Number)
        ensures
            r.bits == number_neg(self.bits),
    {
        Number { bits: self.bits ^ 0x8000_0000_0000_0000u64 }
    }

    /// IEEE-754 `<`.
    pub fn less_than(&self, other: &Number) -> (r: bool)
        ensures
            r == number_lt(self.bits, other.bits),
    {
        let a = self.bits;
        let b = other.bits;
        let a_nan = (a & 0x7ff0_0000_0000_0000u64) == 0x7ff0_0000_0000_0000u64 && (a
            & 0x000f_ffff_ffff_ffffu64) != 0;
        let b_nan = (b & 0x7ff0_0000_0000_0000u64) == 0x7ff0_0000_0000_0000u64 && (b
            & 0x000f_ffff_ffff_ffffu64) != 0;
        let zeros = (a & 0x7fff_ffff_ffff_ffffu64) == 0 && (b & 0x7fff_ffff_ffff_ffffu64) == 0;
        let a_neg = a >= 0x8000_0000_0000_0000u64;
        let b_neg = b >= 0x8000_0000_0000_0000u64;
        if a_nan || b_nan || zeros {
            false
        } else if !a_neg && !b_neg {
            a < b
        } else if a_neg && b_neg {
            b < a
        } else {
            a_neg
        }
    }

    /// IEEE-754 `<=`.
    pub fn less_equal(&self, other: &Number) -> (r: bool)
        ensures
            r == number_le(self.bits, other.bits),
    {
        self.less_than(other) || self.equals(other)
    }

    /// IEEE-754 equality (`==` on `f64`).
    pub fn equals(&self, other: &Number) -> (r: bool)
        ensures
            r == number_eq(self.bits, other.bits),
    {
        let a = self.bits;
        let b = other.bits;
        let a_nan = (a & 0x7ff0_0000_0000_0000u64) == 0x7ff0_0000_0000_0000u64 && (a
            & 0x000f_ffff_ffff_ffffu64) != 0;
        let b_nan = (b & 0x7ff0_0000_0000_0000u64) == 0x7ff0_0000_0000_0000u64 && (b
            & 0x000f_ffff_ffff_ffffu64) != 0;
        !a_nan && !b_nan && (a == b || ((a & 0x7fff_ffff_ffff_ffffu64) == 0 && (b
            & 0x7fff_ffff_ffff_ffffu64) == 0))
    }
}

/// Something that can be called.
#[derive(Debug)]
pub enum LoxCallable {
    Function {
        name: String,
        params: Rc<Vec<(u32, String)>>,
        body: Rc<Vec<Stmt>>,
        /// Index of the captured scope.
        closure: usize,
    },
    NativeClock,
}

/// The value of a Lox expression.
#[derive(Debug)]
pub enum VariableValue {
    Str { value: String },
    Num { value: Number },
    Boolean { value: bool },
    Nil,
    Function { raw: LoxCallable },
}

pub enum CallableView {
    Function {
        name: Seq<char>,
        params: Seq<(u32, Seq<char>)>,
        body: Seq<StmtView>,
        closure: usize,
    },
    NativeClock,
}

pub enum ValueView {
    Str(Seq<char>),
    Num(u64),
    Boolean(bool),
    Nil,
    Function(CallableView),
}

impl View for LoxCallable {
    type V = CallableView;

    open spec fn view(&self) -> CallableView {
        match self {
            LoxCallable::Function { name, params, body, closure } => CallableView::Function {
                name: name@,
                params: (**params)@.map_values(|p: (u32, String)| param_view(p)),
                body: stmts_view((**body)@),
                closure: *closure,
            },
            LoxCallable::NativeClock => CallableView::NativeClock,
        }
    }
}

impl View for VariableValue {
    type V = ValueView;

    open spec fn view(&self) -> ValueView {
        match self {
            VariableValue::Str { value } => ValueView::Str(value@),
            VariableValue::Num { value } => ValueView::Num(value.bits),
            VariableValue::Boolean { value } => ValueView::Boolean(*value),
            VariableValue::Nil => ValueView::Nil,
            VariableValue::Function { raw } => ValueView::Function(raw@),
        }
    }
}

/// Whether a value counts as true: all do but `false` and `nil`.
pub open spec fn truthy(v: ValueView) -> bool {
    !(v == ValueView::Boolean(false) || v == ValueView::Nil)
}

/// Lox equality: same kind and equal contents, numbers compared as IEEE
/// doubles, functions by their whole definition and captured scope.
pub open spec fn values_equal(a: ValueView, b: ValueView) -> bool {
    match (a, b) {
        (ValueView::Num(x), ValueView::Num(y)) => number_eq(x, y),
        (ValueView::Num(_), _) => false,
        (_, ValueView::Num(_)) => false,
        _ => a == b,
    }
}

/// The number of parameters of a callable.
pub open spec fn arity_of(c: CallableView) -> nat {
    match c {
        CallableView::Function { params, .. } => params.len(),
        CallableView::NativeClock => 0,
    }
}

/// The error for calling what cannot be called.
pub open spec fn not_callable(line: u32) -> ErrorView {
    ErrorView::Runtime { line, message: "Can only call functions and classes."@ }
}

impl Clone for LoxCallable {
    fn clone(&self) -> (r: Self)
        ensures
            r == *self,
    {
        match self {
            LoxCallable::Function { name, params, body, closure } => LoxCallable::Function {
                name: name.clone(),
                params: rc_clone(params),
                body: rc_clone(body),
                closure: *closure,
            },
            LoxCallable::NativeClock => LoxCallable::NativeClock,
        }
    }
}

impl Clone for VariableValue {
    fn clone(&self) -> (r: Self)
        ensures
            r == *self,
    {
        match self {
            VariableValue::Str { value } => VariableValue::Str { value: value.clone() },
            VariableValue::Num { value } => VariableValue::Num { value: *value },
            VariableValue::Boolean { value } => VariableValue::Boolean { value: *value },
            VariableValue::Nil => VariableValue::Nil,
            VariableValue::Function { raw } => VariableValue::Function { raw: raw.clone() },
        }
    }
}

impl VariableValue {
    pub fn is_truthy(&self) -> (r: bool)
        ensures
            r == truthy(self@),
    {
        match self {
            VariableValue::Boolean { value } => *value,
            VariableValue::Nil => false,
            _ => true,
        }
    }

    pub fn into_function(self, line: u32) -> (r: Result<LoxCallable, InterpreterError>)
        ensures
            match self@ {
                ValueView::Function(c) => r matches Ok(f) && f@ == c,
                _ => r matches Err(e) && e@ == not_callable(line),
            },
    {
        match self {
            VariableValue::Function { raw } => Ok(raw),
            _ => Err(
                InterpreterError::runtime_error(
                    line,
                    String::from_str("Can only call functions and classes."),
                ),
            ),
        }
    }

    /// Lox equality (`==`).
    pub fn equals(&self, other: &VariableValue) -> (r: bool)
        ensures
            r == values_equal(self@, other@),
    {
        match (self, other) {
            (VariableValue::Num { value: a }, VariableValue::Num { value: b }) => a.equals(b),
            (VariableValue::Str { value: a }, VariableValue::Str { value: b }) => *a == *b,
            (VariableValue::Boolean { value: a }, VariableValue::Boolean { value: b }) => *a == *b,
            (VariableValue::Nil, VariableValue::Nil) => true,
            (VariableValue::Function { raw: a }, VariableValue::Function { raw: b }) => callables_equal(a, b),
            _ => false,
        }
    }
}

impl LoxCallable {
    pub fn arity(&self) -> (r: usize)
        ensures
            r == arity_of(self@),
    {
        match self {
            LoxCallable::Function { params, .. } => params.len(),
            LoxCallable::NativeClock => 0,
        }
    }
}

fn callables_equal(a: &LoxCallable, b: &LoxCallable) -> (r: bool)
    ensures
        r == (a@ == b@),
{
    match (a, b) {
        (
            LoxCallable::Function { name: n1, params: p1, body: b1, closure: c1 },
            LoxCallable::Function { name: n2, params: p2, body: b2, closure: c2 },
        ) => {
            if *c1 != *c2 || !(*n1 == *n2) {
                return false;
            }
            if !crate::ast::params_eq(p1, p2) {
                return false;
            }
            crate::ast::stmt_list_eq(b1, b2)
        },
        (LoxCallable::NativeClock, LoxCallable::NativeClock) => true,
        _ => false,
    }
}


// ---------------------------------------------------------------------------
// The environment: every scope ever made, each with its variables and the
// scope it is nested in. Scopes are never freed, since closures may still
// refer to them.
// ---------------------------------------------------------------------------

/// The function `clock`, which every program finds in the global scope.
pub fn clock() -> (r: VariableValue)
    ensures
        r@ == ValueView::Function(CallableView::NativeClock),
{
    VariableValue::Function { raw: LoxCallable::NativeClock }
}

/// The variables of a scope, in order of definition, as plain values.
pub type Vars = Seq<(Seq<char>, ValueView)>;

/// The value of the first variable called `name`.
pub open spec fn vars_get<V>(d: Seq<(Seq<char>, V)>, name: Seq<char>) -> Option<V>
    decreases d.len(),
{
    if d.len() == 0 {
        None
    } else if d[0].0 == name {
        Some(d[0].1)
    } else {
        vars_get(d.subrange(1, d.len() as int), name)
    }
}

/// The variables with `name` set to `v`: the first variable of that name
/// takes the value, or a new one is added at the end.
pub open spec fn vars_set<V>(d: Seq<(Seq<char>, V)>, name: Seq<char>, v: V) -> Seq<(Seq<char>, V)>
    decreases d.len(),
{
    if d.len() == 0 {
        seq![(name, v)]
    } else if d[0].0 == name {
        d.update(0, (name, v))
    } else {
        seq![d[0]] + vars_set(d.subrange(1, d.len() as int), name, v)
    }
}

pub struct ScopeView {
    pub vars: Vars,
    pub parent: Option<usize>,
}

pub type EnvView = Seq<ScopeView>;

/// Every scope's parent was made before it.
pub open spec fn env_wf(e: EnvView) -> bool {
    forall|i: int|
        0 <= i < e.len() ==> ((#[trigger] e[i]).parent matches Some(p) ==> (p as int) < i)
}

/// The value `name` has when looked up from scope `i`: in that scope, else
/// in the scopes it is nested in.
pub open spec fn env_get(e: EnvView, i: int, name: Seq<char>) -> Option<ValueView>
    decreases i,
{
    if !(0 <= i < e.len()) {
        None
    } else {
        match vars_get(e[i].vars, name) {
            Some(v) => Some(v),
            None => match e[i].parent {
                Some(p) => if (p as int) < i {
                    env_get(e, p as int, name)
                } else {
                    None
                },
                None => None,
            },
        }
    }
}

/// The scope, from `i` outwards, that holds `name`.
pub open spec fn env_owner(e: EnvView, i: int, name: Seq<char>) -> Option<int>
    decreases i,
{
    if !(0 <= i < e.len()) {
        None
    } else if vars_get(e[i].vars, name) is Some {
        Some(i)
    } else {
        match e[i].parent {
            Some(p) => if (p as int) < i {
                env_owner(e, p as int, name)
            } else {
                None
            },
            None => None,
        }
    }
}

/// The scope `d` levels out from scope `i`, if the chain is that long.
pub open spec fn env_ancestor(e: EnvView, i: int, d: nat) -> Option<int>
    decreases d,
{
    if d == 0 {
        if 0 <= i < e.len() {
            Some(i)
        } else {
            None
        }
    } else {
        match env_ancestor(e, i, (d - 1) as nat) {
            Some(a) => match e[a].parent {
                Some(p) => Some(p as int),
                None => None,
            },
            None => None,
        }
    }
}

/// `e` with `name` set to `v` in scope `i`.
pub open spec fn env_set(e: EnvView, i: int, name: Seq<char>, v: ValueView) -> EnvView {
    e.update(i, ScopeView { vars: vars_set(e[i].vars, name, v), parent: e[i].parent })
}

/// A scope's variables are a list of name and value pairs rather than a
/// hash map: with string keys, the map's specification gives no lookup
/// result to prove a contract against.
#[derive(Debug)]
struct Scope {
    data: Vec<(String, VariableValue)>,
    parent: Option<usize>,
}

/// All the scopes of a running program.
#[derive(Debug)]
pub struct Environment {
    scopes: Vec<Scope>,
}

pub open spec fn var_view(p: (String, VariableValue)) -> (Seq<char>, ValueView) {
    (p.0@, p.1@)
}

spec fn scope_view(s: Scope) -> ScopeView {
    ScopeView { vars: s.data@.map_values(|p: (String, VariableValue)| var_view(p)), parent: s.parent }
}

impl View for Environment {
    type V = EnvView;

    closed spec fn view(&self) -> EnvView {
        self.scopes@.map_values(|s: Scope| scope_view(s))
    }
}

pub proof fn lemma_vars_get<V>(d: Seq<(Seq<char>, V)>, name: Seq<char>, i: int)
    requires
        0 <= i < d.len(),
        d[i].0 == name,
        forall|j: int| 0 <= j < i ==> d[j].0 != name,
    ensures
        vars_get(d, name) == Some(d[i].1),
    decreases i,
{
    if i > 0 {
        lemma_vars_get(d.subrange(1, d.len() as int), name, i - 1);
    }
}

pub proof fn lemma_vars_get_none<V>(d: Seq<(Seq<char>, V)>, name: Seq<char>)
    requires
        forall|j: int| 0 <= j < d.len() ==> d[j].0 != name,
    ensures
        vars_get(d, name) is None,
    decreases d.len(),
{
    if d.len() > 0 {
        lemma_vars_get_none(d.subrange(1, d.len() as int), name);
    }
}

pub proof fn lemma_vars_set_at<V>(d: Seq<(Seq<char>, V)>, name: Seq<char>, v: V, i: int)
    requires
        0 <= i < d.len(),
        d[i].0 == name,
        forall|j: int| 0 <= j < i ==> d[j].0 != name,
    ensures
        vars_set(d, name, v) == d.update(i, (name, v)),
    decreases i,
{
    if i > 0 {
        let rest = d.subrange(1, d.len() as int);
        lemma_vars_set_at(rest, name, v, i - 1);
        assert(seq![d[0]] + rest.update(i - 1, (name, v)) =~= d.update(i, (name, v)));
    }
}

pub proof fn lemma_vars_set_new<V>(d: Seq<(Seq<char>, V)>, name: Seq<char>, v: V)
    requires
        forall|j: int| 0 <= j < d.len() ==> d[j].0 != name,
    ensures
        vars_set(d, name, v) == d.push((name, v)),
    decreases d.len(),
{
    if d.len() > 0 {
        let rest = d.subrange(1, d.len() as int);
        lemma_vars_set_new(rest, name, v);
        assert(seq![d[0]] + rest.push((name, v)) =~= d.push((name, v)));
    }
}

impl Scope {
    /// Where the variable `name` is in this scope, if it is.
    fn find(&self, name: &str) -> (r: Option<usize>)
        ensures
            match r {
                Some(i) => {
                    &&& i < self.data@.len()
                    &&& self.data@[i as int].0@ == name@
                    &&& vars_get(scope_view(*self).vars, name@) == Some(self.data@[i as int].1@)
                    &&& forall|j: int| 0 <= j < i ==> self.data@[j].0@ != name@
                },
                None => {
                    &&& vars_get(scope_view(*self).vars, name@) is None
                    &&& forall|j: int| 0 <= j < self.data@.len() ==> self.data@[j].0@ != name@
                },
            },
    {
        let ghost d = scope_view(*self).vars;
        let mut i: usize = 0;
        while i < self.data.len()
            invariant
                i <= self.data@.len(),
                d == scope_view(*self).vars,
                forall|j: int| 0 <= j < i ==> self.data@[j].0@ != name@,
            decreases self.data.len() - i,
        {
            if str_eq(self.data[i].0.as_str(), name) {
                proof {
                    lemma_vars_get(d, name@, i as int);
                }
                return Some(i);
            }
            i = i + 1;
        }
        proof {
            lemma_vars_get_none(d, name@);
        }
        None
    }

    /// Sets `name` to `value` in this scope.
    fn insert(&mut self, name: String, value: VariableValue)
        ensures
            scope_view(*final(self)) == (ScopeView {
                vars: vars_set(scope_view(*old(self)).vars, name@, value@),
                parent: old(self).parent,
            }),
    {
        let ghost d = scope_view(*self).vars;
        match self.find(name.as_str()) {
            Some(i) => {
                proof {
                    lemma_vars_set_at(d, name@, value@, i as int);
                }
                self.data.set(i, (name, value));
                assert(scope_view(*self).vars =~= d.update(i as int, (name@, value@)));
            },
            None => {
                proof {
                    lemma_vars_set_new(d, name@, value@);
                }
                self.data.push((name, value));
                assert(scope_view(*self).vars =~= d.push((name@, value@)));
            },
        }
    }
}

/// String equality for `&str` (`==`). Trusted: true exactly when the two
/// hold the same characters, as std documents.
#[verifier::external_body]
pub fn str_eq(a: &str, b: &str) -> (r: bool)
    ensures
        r == (a@ == b@),
{
    a == b
}

impl Environment {
    /// A well-formed environment: parents come before their children.
    pub open spec fn wf(&self) -> bool {
        env_wf(self@)
    }

    pub fn new() -> (r: Self)
        ensures
            r@ == seq![
                ScopeView {
                    vars: seq![("clock"@, ValueView::Function(CallableView::NativeClock))],
                    parent: None,
                },
            ],
            r.wf(),
    {
        let mut globals: Vec<(String, VariableValue)> = Vec::new();
        globals.push((String::from_str("clock"), clock()));

        let global_scope = Scope { data: globals, parent: None };

        let mut scopes = Vec::new();
        scopes.push(global_scope);
        let r = Environment { scopes };
        assert(r@ =~= seq![
            ScopeView {
                vars: seq![("clock"@, ValueView::Function(CallableView::NativeClock))],
                parent: None,
            },
        ]) by {
            assert(scope_view(r.scopes@[0]).vars =~= seq![("clock"@, ValueView::Function(CallableView::NativeClock))]);
        }
        r
    }
}


impl Environment {
    /// The value of `name` as seen from scope `scope_idx`: from that scope
    /// or the nearest enclosing one that defines it.
    pub fn get(&self, scope_idx: usize, name: &str, line: u32) -> (r: Result<
        &VariableValue,
        InterpreterError,
    >)
        requires
            self.wf(),
            scope_idx < self@.len(),
        ensures
            match r {
                Ok(v) => env_get(self@, scope_idx as int, name@) == Some(v@),
                Err(e) => {
                    &&& env_get(self@, scope_idx as int, name@) is None
                    &&& e@ == undefined_variable_view(line, name@)
                },
            },
    {
        let mut idx = scope_idx;
        let ghost start = scope_idx as int;

        loop
            invariant
                self.wf(),
                idx < self@.len(),
                start == scope_idx as int,
                env_get(self@, start, name@) == env_get(self@, idx as int, name@),
            decreases idx,
        {
            let scope = &self.scopes[idx];
            assert(self@[idx as int] == scope_view(*scope));
            match scope.find(name) {
                Some(i) => {
                    return Ok(&scope.data[i].1);
                },
                None => match scope.parent {
                    Some(parent_idx) => {
                        assert(self@[idx as int].parent == Some(parent_idx));
                        idx = parent_idx;
                    },
                    None => {
                        return Err(InterpreterError::undefined_variable(line, name));
                    },
                },
            }
        }
    }

    /// Sets `name` to `value` in scope `scope_idx`, defining it there if
    /// it is not yet.
    pub fn define(&mut self, scope_idx: usize, name: String, value: VariableValue)
        requires
            old(self).wf(),
            scope_idx < old(self)@.len(),
        ensures
            final(self).wf(),
            final(self)@ == env_set(old(self)@, scope_idx as int, name@, value@),
    {
        self.scopes[scope_idx].insert(name, value);
        assert(self@ =~= env_set(old(self)@, scope_idx as int, name@, value@));
        assert forall|i: int| 0 <= i < self@.len() implies (#[trigger] self@[i]).parent == old(
            self,
        )@[i].parent by {}
    }
}


impl Environment {
    /// The number of scopes made so far.
    pub fn len(&self) -> (r: usize)
        ensures
            r == self@.len(),
    {
        self.scopes.len()
    }

    /// Sets `name` to `value` in the nearest scope, from `scope_idx`
    /// outwards, that defines it.
    #[verifier::loop_isolation(false)]
    pub fn assign(&mut self, scope_idx: usize, name: String, value: VariableValue, line: u32) -> (r:
        Result<(), InterpreterError>)
        requires
            old(self).wf(),
            scope_idx < old(self)@.len(),
        ensures
            final(self).wf(),
            match env_owner(old(self)@, scope_idx as int, name@) {
                Some(o) => r is Ok && final(self)@ == env_set(old(self)@, o, name@, value@),
                None => {
                    &&& final(self)@ == old(self)@
                    &&& r matches Err(e) && e@ == undefined_variable_view(line, name@)
                },
            },
    {
        let mut idx = scope_idx;
        loop
            invariant
                self@ == old(self)@,
                self.wf(),
                idx < self@.len(),
                env_owner(old(self)@, scope_idx as int, name@) == env_owner(self@, idx as int, name@),
            decreases idx,
        {
            assert(self@[idx as int] == scope_view(self.scopes@[idx as int]));
            match self.scopes[idx].find(name.as_str()) {
                Some(_) => {
                    self.define(idx, name, value);
                    return Ok(());
                },
                None => match self.scopes[idx].parent {
                    Some(parent_idx) => {
                        assert(self@[idx as int].parent == Some(parent_idx));
                        idx = parent_idx;
                    },
                    None => {
                        return Err(InterpreterError::undefined_variable(line, name.as_str()));
                    },
                },
            }
        }
    }

    /// Makes a new, empty scope nested in `parent_scope_idx` and returns
    /// its index.
    pub fn scope(&mut self, parent_scope_idx: usize) -> (r: usize)
        requires
            old(self).wf(),
            parent_scope_idx < old(self)@.len(),
        ensures
            final(self).wf(),
            final(self)@ == old(self)@.push(
                ScopeView { vars: Seq::empty(), parent: Some(parent_scope_idx) },
            ),
            r == old(self)@.len(),
    {
        let scope = Scope { data: Vec::new(), parent: Some(parent_scope_idx) };
        self.scopes.push(scope);
        assert(self@ =~= old(self)@.push(
            ScopeView { vars: Seq::empty(), parent: Some(parent_scope_idx) },
        )) by {
            assert(scope_view(self.scopes@[self.scopes@.len() - 1]).vars =~= Seq::empty());
        }
        self.scopes.len() - 1
    }

    /// The scope that scope `scope_idx` is nested in; the global scope for
    /// the global scope itself.
    pub fn unscope(&mut self, scope_idx: usize) -> (r: usize)
        requires
            old(self).wf(),
            scope_idx < old(self)@.len(),
        ensures
            final(self)@ == old(self)@,
            final(self).wf(),
            r == match old(self)@[scope_idx as int].parent {
                Some(p) => p,
                None => 0,
            },
            r < old(self)@.len(),
    {
        assert(self@[scope_idx as int] == scope_view(self.scopes@[scope_idx as int]));
        match self.scopes[scope_idx].parent {
            Some(p) => p,
            None => 0,
        }
    }

    /// The value of `name` in the scope `distance` levels out from
    /// `scope_idx`.
    pub fn get_at(&self, scope_idx: usize, name: &str, distance: usize, line: u32) -> (r: Result<
        &VariableValue,
        InterpreterError,
    >)
        requires
            self.wf(),
            scope_idx < self@.len(),
        ensures
            match env_ancestor(self@, scope_idx as int, distance as nat) {
                Some(a) => match vars_get(self@[a].vars, name@) {
                    Some(v) => r matches Ok(x) && x@ == v,
                    None => r matches Err(e) && e@ == undefined_variable_view(line, name@),
                },
                None => r matches Err(e) && e@ == undefined_variable_view(line, name@),
            },
    {
        let mut cur = scope_idx;
        let mut k: usize = 0;
        while k < distance
            invariant
                self.wf(),
                k <= distance,
                cur < self@.len(),
                env_ancestor(self@, scope_idx as int, k as nat) == Some(cur as int),
            decreases distance - k,
        {
            assert(self@[cur as int] == scope_view(self.scopes@[cur as int]));
            match self.scopes[cur].parent {
                Some(p) => {
                    cur = p;
                },
                None => {
                    proof {
                        assert(env_ancestor(self@, scope_idx as int, (k + 1) as nat) is None);
                        lemma_ancestor_stops(self@, scope_idx as int, (k + 1) as nat, distance as nat);
                    }
                    return Err(InterpreterError::undefined_variable(line, name));
                },
            }
            k = k + 1;
        }
        let scope = &self.scopes[cur];
        assert(self@[cur as int] == scope_view(*scope));
        match scope.find(name) {
            Some(i) => Ok(&scope.data[i].1),
            None => Err(InterpreterError::undefined_variable(line, name)),
        }
    }

    /// Sets `name` to `value` in the scope `distance` levels out from
    /// `scope_idx`.
    pub fn assign_at(
        &mut self,
        scope_idx: usize,
        name: String,
        value: VariableValue,
        distance: usize,
        line: u32,
    ) -> (r: Result<(), InterpreterError>)
        requires
            old(self).wf(),
            scope_idx < old(self)@.len(),
        ensures
            final(self).wf(),
            match env_ancestor(old(self)@, scope_idx as int, distance as nat) {
                Some(a) => r is Ok && final(self)@ == env_set(old(self)@, a, name@, value@),
                None => {
                    &&& final(self)@ == old(self)@
                    &&& r matches Err(e) && e@ == undefined_variable_view(line, name@)
                },
            },
    {
        let mut cur = scope_idx;
        let mut k: usize = 0;
        while k < distance
            invariant
                self@ == old(self)@,
                self.wf(),
                k <= distance,
                cur < self@.len(),
                env_ancestor(self@, scope_idx as int, k as nat) == Some(cur as int),
            decreases distance - k,
        {
            assert(self@[cur as int] == scope_view(self.scopes@[cur as int]));
            match self.scopes[cur].parent {
                Some(p) => {
                    cur = p;
                },
                None => {
                    proof {
                        assert(env_ancestor(self@, scope_idx as int, (k + 1) as nat) is None);
                        lemma_ancestor_stops(self@, scope_idx as int, (k + 1) as nat, distance as nat);
                    }
                    return Err(InterpreterError::undefined_variable(line, name.as_str()));
                },
            }
            k = k + 1;
        }
        self.define(cur, name, value);
        Ok(())
    }
}

/// Once the chain of enclosing scopes has ended it stays ended.
proof fn lemma_ancestor_stops(e: EnvView, i: int, d: nat, n: nat)
    requires
        env_ancestor(e, i, d) is None,
        d <= n,
    ensures
        env_ancestor(e, i, n) is None,
    decreases n - d,
{
    if d < n {
        lemma_ancestor_stops(e, i, d + 1, n);
    }
}


// ---------------------------------------------------------------------------
// What the environment promises across its operations.
// ---------------------------------------------------------------------------

pub proof fn lemma_vars_set_get<V>(d: Seq<(Seq<char>, V)>, name: Seq<char>, other: Seq<char>, v: V)
    ensures
        vars_get(vars_set(d, name, v), name) == Some(v),
        other != name ==> vars_get(vars_set(d, name, v), other) == vars_get(d, other),
    decreases d.len(),
{
    if d.len() == 0 {
        let s = vars_set(d, name, v);
        assert(s.subrange(1, s.len() as int) =~= Seq::<(Seq<char>, V)>::empty());
        assert(vars_get(Seq::<(Seq<char>, V)>::empty(), other) is None);
    } else {
        let rest = d.subrange(1, d.len() as int);
        lemma_vars_set_get(rest, name, other, v);
        if d[0].0 != name {
            let s = vars_set(d, name, v);
            assert(s.subrange(1, s.len() as int) =~= vars_set(rest, name, v));
        } else {
            let s = vars_set(d, name, v);
            assert(s.subrange(1, s.len() as int) =~= rest);
        }
    }
}

proof fn lemma_env_set_other(e: EnvView, i: int, j: int, name: Seq<char>, other: Seq<char>, v: ValueView)
    requires
        0 <= i < e.len(),
        other != name,
    ensures
        env_get(env_set(e, i, name, v), j, other) == env_get(e, j, other),
    decreases j,
{
    lemma_vars_set_get(e[i].vars, name, other, v);
    if 0 <= j < e.len() {
        match e[j].parent {
            Some(p) => if (p as int) < j {
                lemma_env_set_other(e, i, p as int, name, other, v);
            },
            None => {},
        }
    }
}

proof fn lemma_env_push(e: EnvView, s: ScopeView, j: int, name: Seq<char>)
    requires
        0 <= j < e.len(),
    ensures
        env_get(e.push(s), j, name) == env_get(e, j, name),
    decreases j,
{
    match e[j].parent {
        Some(p) => if (p as int) < j {
            lemma_env_push(e, s, p as int, name);
        },
        None => {},
    }
}

pub proof fn lemma_owner_props(e: EnvView, i: int, name: Seq<char>)
    requires
        env_owner(e, i, name) is Some,
    ensures
        0 <= env_owner(e, i, name).unwrap() <= i,
        vars_get(e[env_owner(e, i, name).unwrap()].vars, name) is Some,
    decreases i,
{
    if vars_get(e[i].vars, name) is None {
        lemma_owner_props(e, e[i].parent.unwrap() as int, name);
    }
}

proof fn lemma_env_set_owner(e: EnvView, i: int, name: Seq<char>, v: ValueView)
    requires
        env_wf(e),
        env_owner(e, i, name) is Some,
    ensures
        env_get(env_set(e, env_owner(e, i, name).unwrap(), name, v), i, name) == Some(v),
    decreases i,
{
    let o = env_owner(e, i, name).unwrap();
    let e2 = env_set(e, o, name, v);
    lemma_vars_set_get(e[o].vars, name, name, v);
    lemma_owner_props(e, i, name);
    if vars_get(e[i].vars, name) is None {
        let p = e[i].parent.unwrap();
        lemma_env_set_owner(e, p as int, name, v);
        assert(o != i);
        assert(e2[i] == e[i]);
    }
}

/// A variable defined in a scope is found there, with the value it was
/// given, whatever it held before.
pub proof fn law_define_then_get(e: EnvView, i: int, name: Seq<char>, v: ValueView)
    requires
        env_wf(e),
        0 <= i < e.len(),
    ensures
        env_get(env_set(e, i, name, v), i, name) == Some(v),
{
    lemma_vars_set_get(e[i].vars, name, name, v);
}

/// Defining or assigning one name changes what no other name holds, seen
/// from any scope.
pub proof fn law_set_keeps_other_names(
    e: EnvView,
    i: int,
    j: int,
    name: Seq<char>,
    other: Seq<char>,
    v: ValueView,
)
    requires
        env_wf(e),
        0 <= i < e.len(),
        other != name,
    ensures
        env_get(env_set(e, i, name, v), j, other) == env_get(e, j, other),
{
    lemma_env_set_other(e, i, j, name, other, v);
}

/// A new scope sees what its parent sees, and making it changes what no
/// older scope sees.
pub proof fn law_new_scope(e: EnvView, p: usize, j: int, name: Seq<char>)
    requires
        env_wf(e),
        p < e.len(),
        0 <= j < e.len(),
    ensures
        env_get(e.push(ScopeView { vars: Seq::empty(), parent: Some(p) }), e.len() as int, name)
            == env_get(e, p as int, name),
        env_get(e.push(ScopeView { vars: Seq::empty(), parent: Some(p) }), j, name) == env_get(
            e,
            j,
            name,
        ),
        env_wf(e.push(ScopeView { vars: Seq::empty(), parent: Some(p) })),
{
    let s = ScopeView { vars: Seq::empty(), parent: Some(p) };
    lemma_env_push(e, s, p as int, name);
    lemma_env_push(e, s, j, name);
    assert(vars_get(s.vars, name) is None);
}

/// After an assignment that succeeds, reading the name from the same
/// scope gives the assigned value.
pub proof fn law_assign_then_get(e: EnvView, i: int, name: Seq<char>, v: ValueView)
    requires
        env_wf(e),
        0 <= i < e.len(),
        env_owner(e, i, name) is Some,
    ensures
        env_get(env_set(e, env_owner(e, i, name).unwrap(), name, v), i, name) == Some(v),
{
    lemma_env_set_owner(e, i, name, v);
}

/// A name can be assigned from a scope exactly when it can be read there.
pub proof fn law_owner_iff_defined(e: EnvView, i: int, name: Seq<char>)
    requires
        env_wf(e),
    ensures
        (env_owner(e, i, name) is Some) == (env_get(e, i, name) is Some),
    decreases i,
{
    if 0 <= i < e.len() && vars_get(e[i].vars, name) is None {
        match e[i].parent {
            Some(p) => law_owner_iff_defined(e, p as int, name),
            None => {},
        }
    }
}

/// Leaving a scope made with `scope` leads back to the scope it was made
/// in.
pub proof fn law_unscope_undoes_scope(e: EnvView, p: usize)
    requires
        env_wf(e),
        p < e.len(),
    ensures
        (match e.push(ScopeView { vars: Seq::empty(), parent: Some(p) })[e.len() as int].parent {
            Some(q) => q,
            None => 0,
        }) == p,
{
}

/// Looking a name up at distance zero looks in the scope itself.
pub proof fn law_get_at_zero(e: EnvView, i: int)
    requires
        0 <= i < e.len(),
    ensures
        env_ancestor(e, i, 0) == Some(i),
{
}


// ---------------------------------------------------------------------------
// Printing, and the closures that values carry.
// ---------------------------------------------------------------------------

/// The text `print` shows for a value other than a number.
pub open spec fn value_text(v: ValueView) -> Seq<char> {
    match v {
        ValueView::Str(s) => s,
        ValueView::Num(_) => Seq::empty(),
        ValueView::Boolean(b) => if b {
            "true"@
        } else {
            "false"@
        },
        ValueView::Nil => "nil"@,
        ValueView::Function(CallableView::Function { name, .. }) => "<fn "@ + name + ">"@,
        ValueView::Function(CallableView::NativeClock) => "<native fn>"@,
    }
}

impl VariableValue {
    /// The text `print` shows for this value. A number has none here: its
    /// text is floating-point formatting, left to the host.
    pub fn text(&self) -> (r: Option<String>)
        ensures
            match self@ {
                ValueView::Num(_) => r is None,
                _ => r matches Some(t) && t@ == value_text(self@),
            },
    {
        match self {
            VariableValue::Str { value } => Some(value.clone()),
            VariableValue::Num { .. } => None,
            VariableValue::Boolean { value } => if *value {
                Some(String::from_str("true"))
            } else {
                Some(String::from_str("false"))
            },
            VariableValue::Nil => Some(String::from_str("nil")),
            VariableValue::Function { raw: LoxCallable::Function { name, .. } } => {
                let mut t = String::from_str("<fn ");
                t.append(name.as_str());
                t.append(">");
                Some(t)
            },
            VariableValue::Function { raw: LoxCallable::NativeClock } => Some(
                String::from_str("<native fn>"),
            ),
        }
    }
}

/// A value whose closure, if it has one, is one of the first `n` scopes.
pub open spec fn value_ok(v: ValueView, n: nat) -> bool {
    match v {
        ValueView::Function(CallableView::Function { closure, .. }) => closure < n,
        _ => true,
    }
}

/// Every closure held in the environment refers to one of its scopes.
pub open spec fn env_values_ok(e: EnvView) -> bool {
    forall|i: int, j: int|
        0 <= i < e.len() && 0 <= j < e[i].vars.len() ==> value_ok(
            #[trigger] e[i].vars[j].1,
            e.len(),
        )
}

proof fn lemma_vars_get_index(d: Vars, name: Seq<char>) -> (j: int)
    requires
        vars_get(d, name) is Some,
    ensures
        0 <= j < d.len(),
        d[j].1 == vars_get(d, name).unwrap(),
    decreases d.len(),
{
    if d[0].0 == name {
        0
    } else {
        let rest = d.subrange(1, d.len() as int);
        let k = lemma_vars_get_index(rest, name);
        k + 1
    }
}

proof fn lemma_vars_set_index(d: Vars, name: Seq<char>, v: ValueView, j: int) -> (k: int)
    requires
        0 <= j < vars_set(d, name, v).len(),
    ensures
        k < d.len(),
        k < 0 ==> vars_set(d, name, v)[j].1 == v,
        k >= 0 ==> vars_set(d, name, v)[j].1 == d[k].1,
    decreases d.len(),
{
    if d.len() == 0 {
        -1
    } else if d[0].0 == name {
        if j == 0 {
            -1
        } else {
            j
        }
    } else if j == 0 {
        0
    } else {
        let rest = d.subrange(1, d.len() as int);
        let s = vars_set(d, name, v);
        assert(s[j] == vars_set(rest, name, v)[j - 1]);
        let k = lemma_vars_set_index(rest, name, v, j - 1);
        if k < 0 {
            -1
        } else {
            k + 1
        }
    }
}

/// A value read from an environment whose closures are all in range has
/// its closure in range.
pub proof fn lemma_get_ok(e: EnvView, i: int, name: Seq<char>)
    requires
        env_values_ok(e),
        env_get(e, i, name) is Some,
    ensures
        value_ok(env_get(e, i, name).unwrap(), e.len()),
    decreases i,
{
    if vars_get(e[i].vars, name) is Some {
        let j = lemma_vars_get_index(e[i].vars, name);
        assert(value_ok(e[i].vars[j].1, e.len()));
    } else {
        lemma_get_ok(e, e[i].parent.unwrap() as int, name);
    }
}

/// Setting a variable to a value whose closure is in range keeps every
/// closure in range.
pub proof fn lemma_set_ok(e: EnvView, i: int, name: Seq<char>, v: ValueView)
    requires
        env_values_ok(e),
        0 <= i < e.len(),
        value_ok(v, e.len()),
    ensures
        env_values_ok(env_set(e, i, name, v)),
        env_set(e, i, name, v).len() == e.len(),
        env_wf(e) ==> env_wf(env_set(e, i, name, v)),
{
    let e2 = env_set(e, i, name, v);
    assert forall|a: int, b: int| 0 <= a < e2.len() && 0 <= b < e2[a].vars.len() implies value_ok(
        #[trigger] e2[a].vars[b].1,
        e2.len(),
    ) by {
        if a == i {
            let k = lemma_vars_set_index(e[i].vars, name, v, b);
            if k >= 0 {
                assert(value_ok(e[i].vars[k].1, e.len()));
            }
        } else {
            assert(e2[a] == e[a]);
        }
    }
    if env_wf(e) {
        assert forall|a: int| 0 <= a < e2.len() implies ((#[trigger] e2[a]).parent matches Some(
            p,
        ) ==> (p as int) < a) by {
            assert(e2[a].parent == e[a].parent);
        }
    }
}

/// Adding an empty scope nested in an existing one keeps the environment
/// well formed and every closure in range.
pub proof fn lemma_push_ok(e: EnvView, p: usize)
    requires
        env_wf(e),
        env_values_ok(e),
        p < e.len(),
    ensures
        env_wf(e.push(ScopeView { vars: Seq::empty(), parent: Some(p) })),
        env_values_ok(e.push(ScopeView { vars: Seq::empty(), parent: Some(p) })),
{
    let e2 = e.push(ScopeView { vars: Seq::empty(), parent: Some(p) });
    assert forall|a: int, b: int| 0 <= a < e2.len() && 0 <= b < e2[a].vars.len() implies value_ok(
        #[trigger] e2[a].vars[b].1,
        e2.len(),
    ) by {
        assert(a < e.len());
        assert(e2[a] == e[a]);
        assert(value_ok(e[a].vars[b].1, e.len()));
    }
    assert forall|a: int| 0 <= a < e2.len() implies ((#[trigger] e2[a]).parent matches Some(q) ==> (
    q as int) < a) by {
        if a < e.len() {
            assert(e2[a] == e[a]);
        }
    }
}


/// Lox equality is symmetric, and every value equals itself but a NaN.
pub proof fn law_equality(a: ValueView, b: ValueView)
    ensures
        values_equal(a, b) == values_equal(b, a),
        a matches ValueView::Num(x) ==> values_equal(a, a) == !is_nan(x),
        !(a is Num) ==> values_equal(a, a),
{
}

/// The order on numbers: no number is below itself, no two numbers are each
/// below the other, equality is symmetric, and of two numbers that are not
/// NaN exactly one is below the other or they are equal; a NaN compares
/// with nothing.
pub proof fn law_number_order(a: u64, b: u64)
    ensures
        !number_lt(a, a),
        number_lt(a, b) ==> !number_lt(b, a),
        number_lt(a, b) ==> !number_eq(a, b),
        number_eq(a, b) == number_eq(b, a),
        !is_nan(a) && !is_nan(b) ==> number_lt(a, b) || number_le(b, a),
        !is_nan(a) && !is_nan(b) ==> number_lt(a, b) || number_eq(a, b) || number_lt(b, a),
        is_nan(a) ==> !number_lt(a, b) && !number_lt(b, a) && !number_eq(a, b),
{
}

} // verus!
