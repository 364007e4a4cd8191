use vstd::prelude::*;

use crate::errors::{undefined_variable_view, InterpreterError};
use crate::runtime::{
    lemma_vars_get, lemma_vars_get_none, lemma_vars_set_at, lemma_vars_set_new, number_eq, str_eq,
    vars_get, vars_set, Number,
};

verus! {

// ---------------------------------------------------------------------------
// A simpler environment: a chain of scopes, each owning the one it is
// nested in, for values without functions.
// ---------------------------------------------------------------------------

/// A value without functions.
#[derive(Debug)]
pub enum VariableValue {
    Str { value: String },
    Num { value: Number },
    Boolean { value: bool },
    Nil,
}

pub enum StateValueView {
    Str(Seq<char>),
    Num(u64),
    Boolean(bool),
    Nil,
}

impl View for VariableValue {
    type V = StateValueView;

    open spec fn view(&self) -> StateValueView {
        match self {
            VariableValue::Str { value } => StateValueView::Str(value@),
            VariableValue::Num { value } => StateValueView::Num(value.bits),
            VariableValue::Boolean { value } => StateValueView::Boolean(*value),
            VariableValue::Nil => StateValueView::Nil,
        }
    }
}

impl Clone for VariableValue {
    fn clone(&self) -> (r: Self)
        ensures
            r == *self,
    {
        match self {
            VariableValue::Str { value } => VariableValue::Str { value: value.clone() },
            VariableValue::Num { value } => VariableValue::Num { value: *value },
            VariableValue::Boolean { value } => VariableValue::Boolean { value: *value },
            VariableValue::Nil => VariableValue::Nil,
        }
    }
}

/// Two values are equal when they are of one kind and hold equal contents;
/// numbers compare as floating-point numbers do.
pub open spec fn state_equal(a: StateValueView, b: StateValueView) -> bool {
    match (a, b) {
        (StateValueView::Str(x), StateValueView::Str(y)) => x == y,
        (StateValueView::Num(x), StateValueView::Num(y)) => number_eq(x, y),
        (StateValueView::Boolean(x), StateValueView::Boolean(y)) => x == y,
        (StateValueView::Nil, StateValueView::Nil) => true,
        _ => false,
    }
}

impl PartialEq for VariableValue {
    fn eq(&self, other: &Self) -> (r: bool) {
        match (self, other) {
            (VariableValue::Str { value: a }, VariableValue::Str { value: b }) => str_eq(
                a.as_str(),
                b.as_str(),
            ),
            (VariableValue::Num { value: a }, VariableValue::Num { value: b }) => a.equals(b),
            (VariableValue::Boolean { value: a }, VariableValue::Boolean { value: b }) => *a == *b,
            (VariableValue::Nil, VariableValue::Nil) => true,
            _ => false,
        }
    }
}

impl vstd::std_specs::cmp::PartialEqSpecImpl for VariableValue {
    open spec fn obeys_eq_spec() -> bool {
        true
    }

    open spec fn eq_spec(&self, other: &Self) -> bool {
        state_equal(self@, other@)
    }
}

/// All values count as true but `false` and `nil`.
pub open spec fn state_truthy(v: StateValueView) -> bool {
    !(v == StateValueView::Boolean(false) || v == StateValueView::Nil)
}

/// The text `print` shows for a value other than a number.
pub open spec fn state_text(v: StateValueView) -> Seq<char> {
    match v {
        StateValueView::Str(s) => s,
        StateValueView::Num(_) => Seq::empty(),
        StateValueView::Boolean(b) => if b {
            "true"@
        } else {
            "false"@
        },
        StateValueView::Nil => "nil"@,
    }
}

impl VariableValue {
    pub fn is_truthy(&self) -> (r: bool)
        ensures
            r == state_truthy(self@),
    {
        match self {
            VariableValue::Boolean { value } => *value,
            VariableValue::Nil => false,
            _ => true,
        }
    }

    /// The text `print` shows for this value. A number has none here: its
    /// text is floating-point formatting, left to the host.
    pub fn text(&self) -> (r: Option<String>)
        ensures
            match self@ {
                StateValueView::Num(_) => r is None,
                _ => r matches Some(t) && t@ == state_text(self@),
            },
    {
        match self {
            VariableValue::Str { value } => Some(value.clone()),
            VariableValue::Num { .. } => None,
            VariableValue::Boolean { value } => if *value {
                Some(String::from_str("true"))
            } else {
                Some(String::from_str("false"))
            },
            VariableValue::Nil => Some(String::from_str("nil")),
        }
    }
}

/// The variables of one scope, in order of definition.
pub type Level = Seq<(Seq<char>, StateValueView)>;

/// The value of `name` in the innermost scope of the chain that has it.
pub open spec fn chain_get(c: Seq<Level>, name: Seq<char>) -> Option<StateValueView>
    decreases c.len(),
{
    if c.len() == 0 {
        None
    } else {
        match vars_get(c[0], name) {
            Some(v) => Some(v),
            None => chain_get(c.subrange(1, c.len() as int), name),
        }
    }
}

/// The chain with `name` set to `v` in the innermost scope that has it, if
/// one does.
pub open spec fn chain_assign(c: Seq<Level>, name: Seq<char>, v: StateValueView) -> Option<
    Seq<Level>,
>
    decreases c.len(),
{
    if c.len() == 0 {
        None
    } else if vars_get(c[0], name) is Some {
        Some(c.update(0, vars_set(c[0], name, v)))
    } else {
        match chain_assign(c.subrange(1, c.len() as int), name, v) {
            Some(rest) => Some(seq![c[0]] + rest),
            None => None,
        }
    }
}

/// A scope and, through the scope it is nested in, all that enclose it.
/// Each scope is a list of name and value pairs rather than a hash map:
/// with string keys, the map's specification gives no lookup result to
/// prove a contract against.
#[derive(Debug)]
pub struct Environment {
    values: Vec<(String, VariableValue)>,
    enclosing: Option<Box<Environment>>,
}

pub open spec fn level_of(values: Seq<(String, VariableValue)>) -> Level {
    values.map_values(|p: (String, VariableValue)| (p.0@, p.1@))
}

/// The scopes of the chain, innermost first.
pub closed spec fn chain_of(e: Environment) -> Seq<Level>
    decreases e,
{
    seq![level_of(e.values@)] + match e.enclosing {
        Some(b) => chain_of(*b),
        None => Seq::empty(),
    }
}

impl View for Environment {
    type V = Seq<Level>;

    closed spec fn view(&self) -> Seq<Level> {
        chain_of(*self)
    }
}

/// Where `name` is among `values`, if it is.
fn find(values: &Vec<(String, VariableValue)>, name: &str) -> (r: Option<usize>)
    ensures
        match r {
            Some(i) => i < values@.len() && vars_get(level_of(values@), name@) == Some(
                values@[i as int].1@,
            ),
            None => vars_get(level_of(values@), name@) is None,
        },
        r matches Some(i) ==> values@[i as int].0@ == name@ && forall|j: int|
            0 <= j < i ==> values@[j].0@ != name@,
        r is None ==> forall|j: int| 0 <= j < values@.len() ==> values@[j].0@ != name@,
{
    let ghost d = level_of(values@);
    let mut i: usize = 0;
    while i < values.len()
        invariant
            i <= values@.len(),
            d == level_of(values@),
            forall|j: int| 0 <= j < i ==> values@[j].0@ != name@,
        decreases values.len() - i,
    {
        if str_eq(values[i].0.as_str(), name) {
            proof {
                lemma_vars_get(d, name@, i as int);
            }
            return Some(i);
        }
        i = i + 1;
    }
    proof {
        lemma_vars_get_none(d, name@);
    }
    None
}

/// Sets `name` to `value` among `values`, adding it if it is not there.
fn insert(values: &mut Vec<(String, VariableValue)>, name: String, value: VariableValue)
    ensures
        level_of(final(values)@) == vars_set(level_of(old(values)@), name@, value@),
{
    let ghost d = level_of(values@);
    match find(values, name.as_str()) {
        Some(i) => {
            proof {
                lemma_vars_set_at(d, name@, value@, i as int);
            }
            let ghost nv = name@;
            let ghost vv = value@;
            values.set(i, (name, value));
            assert(level_of(values@) =~= d.update(i as int, (nv, vv)));
        },
        None => {
            proof {
                lemma_vars_set_new(d, name@, value@);
            }
            let ghost nv = name@;
            let ghost vv = value@;
            values.push((name, value));
            assert(level_of(values@) =~= d.push((nv, vv)));
        },
    }
}

/// A copy of the variables of one scope.
fn clone_values(values: &Vec<(String, VariableValue)>) -> (r: Vec<(String, VariableValue)>)
    ensures
        level_of(r@) == level_of(values@),
{
    let mut r: Vec<(String, VariableValue)> = Vec::new();
    let mut i: usize = 0;
    while i < values.len()
        invariant
            i <= values@.len(),
            level_of(r@) == level_of(values@.subrange(0, i as int)),
        decreases values.len() - i,
    {
        let (name, value) = &values[i];
        let ghost before = r@;
        r.push((name.clone(), value.clone()));
        assert(level_of(r@) =~= level_of(before).push((name@, value@)));
        assert(level_of(values@.subrange(0, i + 1)) =~= level_of(values@.subrange(0, i as int)).push(
            (name@, value@),
        ));
        i = i + 1;
    }
    assert(values@.subrange(0, values@.len() as int) =~= values@);
    r
}

/// A copy of a whole chain.
fn clone_chain(e: &Environment) -> (r: Environment)
    ensures
        r@ == e@,
    decreases *e,
{
    let values = clone_values(&e.values);
    let enclosing = match &e.enclosing {
        Some(b) => Some(Box::new(clone_chain(&**b))),
        None => None,
    };
    let r = Environment { values, enclosing };
    assert(r@ =~= e@);
    r
}

impl Clone for Environment {
    fn clone(&self) -> (r: Self)
        ensures
            r@ == self@,
    {
        clone_chain(self)
    }
}

impl Environment {
    /// The global scope, empty.
    pub fn new() -> (r: Environment)
        ensures
            r@ == seq![Seq::<(Seq<char>, StateValueView)>::empty()],
    {
        let r = Environment { values: Vec::new(), enclosing: None };
        assert(level_of(r.values@) =~= Seq::empty());
        assert(r@ =~= seq![Seq::<(Seq<char>, StateValueView)>::empty()]);
        r
    }

    /// A new, empty scope nested in this one.
    pub fn scope(self) -> (r: Environment)
        ensures
            r@ == seq![Seq::<(Seq<char>, StateValueView)>::empty()] + self@,
    {
        let r = Environment { values: Vec::new(), enclosing: Some(Box::new(self)) };
        assert(level_of(r.values@) =~= Seq::empty());
        r
    }

    /// The scope this one is nested in, if any.
    pub fn unscope(self) -> (r: Option<Box<Environment>>)
        ensures
            match r {
                Some(b) => (*b)@ == self@.subrange(1, self@.len() as int),
                None => self@.len() == 1,
            },
    {
        let ghost c = self@;
        match self.enclosing {
            Some(b) => {
                assert(c.subrange(1, c.len() as int) =~= (*b)@);
                Some(b)
            },
            None => None,
        }
    }

    /// The value of `name` in the innermost scope that has it.
    pub fn get(&self, name: &str) -> (r: Result<&VariableValue, InterpreterError>)
        ensures
            match chain_get(self@, name@) {
                Some(v) => r matches Ok(x) && x@ == v,
                None => r matches Err(e) && e@ == undefined_variable_view(1, name@),
            },
        decreases *self,
    {
        let ghost c = self@;
        assert(c[0] == level_of(self.values@));
        match find(&self.values, name) {
            Some(i) => {
                assert(chain_get(c, name@) == Some(self.values@[i as int].1@));
                Ok(&self.values[i].1)
            },
            None => match &self.enclosing {
                Some(env) => {
                    assert(c.subrange(1, c.len() as int) =~= (**env)@);
                    assert(chain_get(c, name@) == chain_get((**env)@, name@));
                    let r = (**env).get(name);
                    assert(match chain_get(c, name@) {
                        Some(v) => r matches Ok(x) && x@ == v,
                        None => r matches Err(e) && e@ == undefined_variable_view(1, name@),
                    });
                    r
                },
                None => {
                    assert(c.subrange(1, c.len() as int) =~= Seq::<Level>::empty());
                    assert(chain_get(c.subrange(1, c.len() as int), name@) is None);
                    Err(InterpreterError::undefined_variable(1, name))
                },
            },
        }
    }

    /// Sets `name` to `value` in this scope.
    pub fn define(&mut self, name: String, value: VariableValue)
        ensures
            final(self)@ == old(self)@.update(0, vars_set(old(self)@[0], name@, value@)),
    {
        insert(&mut self.values, name, value);
        assert(self@ =~= old(self)@.update(0, vars_set(old(self)@[0], name@, value@)));
    }

    /// Sets `name` to `value` in the innermost scope that has it.
    pub fn assign(&mut self, name: String, value: VariableValue) -> (r: Result<(), InterpreterError>)
        ensures
            match chain_assign(old(self)@, name@, value@) {
                Some(c) => r is Ok && final(self)@ == c,
                None => {
                    &&& final(self)@ == old(self)@
                    &&& r matches Err(e) && e@ == undefined_variable_view(1, name@)
                },
            },
        decreases *old(self),
    {
        let ghost c = self@;
        match find(&self.values, name.as_str()) {
            Some(_) => {
                self.define(name, value);
                Ok(())
            },
            None => match self.enclosing.take() {
                Some(mut env) => {
                    assert(c.subrange(1, c.len() as int) =~= (*env)@);
                    let r = (&mut *env).assign(name, value);
                    self.enclosing = Some(env);
                    proof {
                        match chain_assign(c.subrange(1, c.len() as int), name@, value@) {
                            Some(rest) => {
                                assert(self@ =~= seq![c[0]] + rest);
                            },
                            None => {
                                assert(self@ =~= c);
                            },
                        }
                    }
                    r
                },
                None => {
                    assert(c.subrange(1, c.len() as int) =~= Seq::<Level>::empty());
                    Err(InterpreterError::undefined_variable(1, name.as_str()))
                },
            },
        }
    }
}


/// Every chain has at least one scope: the scope itself.
pub proof fn law_chain_nonempty(e: &Environment)
    ensures
        e@.len() >= 1,
{
}

/// Leaving a scope made with `scope` gives back the chain it was made on:
/// the new chain has more than one scope, so `unscope` answers `Some`, and
/// without its first scope it is the old chain.
pub proof fn law_unscope_undoes_scope(e: &Environment)
    ensures
        (seq![Seq::<(Seq<char>, StateValueView)>::empty()] + e@).len() > 1,
        (seq![Seq::<(Seq<char>, StateValueView)>::empty()] + e@).subrange(
            1,
            (seq![Seq::<(Seq<char>, StateValueView)>::empty()] + e@).len() as int,
        ) == e@,
{
    law_chain_nonempty(e);
    let c = seq![Seq::<(Seq<char>, StateValueView)>::empty()] + e@;
    assert(c.subrange(1, c.len() as int) =~= e@);
}
} // verus!
