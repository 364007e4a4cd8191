use vstd::prelude::*;

use crate::ast::{
    exprs_view, lemma_exprs_view, lemma_stmts_view, param_view, stmts_view, Expr, ExprInfo,
    ExprInfoView, ExprView, Stmt, StmtView,
};
use crate::errors::{quote, quoted, ErrorView, InterpreterError};
use crate::runtime::str_eq;

verus! {

// ---------------------------------------------------------------------------
// Static checks of a program before it runs: which scope each variable use
// refers to, and the static errors of a program (a variable read in
// its own initializer, a name declared twice in one local scope, a `return`
// outside any function).
// ---------------------------------------------------------------------------

/// The names of a local scope, each with whether its initializer has been
/// resolved.
pub type Names = Seq<(Seq<char>, bool)>;

/// The flag of the first entry called `name`.
pub open spec fn flag_get(d: Names, name: Seq<char>) -> Option<bool>
    decreases d.len(),
{
    if d.len() == 0 {
        None
    } else if d[0].0 == name {
        Some(d[0].1)
    } else {
        flag_get(d.subrange(1, d.len() as int), name)
    }
}

/// The entries with `name` flagged `b`: the first entry of that name takes
/// the flag, or a new entry is added at the end.
pub open spec fn flag_set(d: Names, name: Seq<char>, b: bool) -> Names
    decreases d.len(),
{
    if d.len() == 0 {
        seq![(name, b)]
    } else if d[0].0 == name {
        d.update(0, (name, b))
    } else {
        seq![d[0]] + flag_set(d.subrange(1, d.len() as int), name, b)
    }
}

/// How many scopes out from the innermost one the nearest scope that
/// holds `name` is.
pub open spec fn depth_of(scopes: Seq<Names>, name: Seq<char>) -> Option<nat>
    decreases scopes.len(),
{
    if scopes.len() == 0 {
        None
    } else if flag_get(scopes.last(), name) is Some {
        Some(0)
    } else {
        match depth_of(scopes.drop_last(), name) {
            Some(d) => Some(d + 1),
            None => None,
        }
    }
}

/// The scopes without the innermost one, if there is one.
pub open spec fn pop_scope(scopes: Seq<Names>) -> Seq<Names> {
    if scopes.len() > 0 {
        scopes.drop_last()
    } else {
        scopes
    }
}

pub struct ResolverView {
    /// The local scopes, innermost last; the global scope is not among them.
    pub scopes: Seq<Names>,
    /// Whether a function body is being resolved.
    pub in_function: bool,
    /// The errors found, in order.
    pub errors: Seq<ErrorView>,
    /// For each local variable use: the expression's id and the depth of
    /// the scope it refers to.
    pub resolutions: Seq<(usize, usize)>,
}

pub open spec fn already_defined_view(line: u32, name: Seq<char>) -> ErrorView {
    ErrorView::Resolver {
        line,
        location: quoted(name),
        message: "Already a variable with this name in this scope."@,
    }
}

pub open spec fn self_ref_view(line: u32, name: Seq<char>) -> ErrorView {
    ErrorView::Resolver {
        line,
        location: quoted(name),
        message: "Can't read local variable in its own initializer."@,
    }
}

pub open spec fn top_return_view(line: u32) -> ErrorView {
    ErrorView::Resolver {
        line,
        location: "'return'"@,
        message: "Can't return from top-level code."@,
    }
}

/// Declaring `name` in the innermost scope, not yet usable.
pub open spec fn declare_spec(r: ResolverView, name: Seq<char>, line: u32) -> ResolverView {
    if r.scopes.len() == 0 {
        r
    } else {
        let last = r.scopes.last();
        ResolverView {
            scopes: r.scopes.update(r.scopes.len() - 1, flag_set(last, name, false)),
            errors: if flag_get(last, name) is Some {
                r.errors.push(already_defined_view(line, name))
            } else {
                r.errors
            },
            ..r
        }
    }
}

/// Marking `name` usable in the innermost scope.
pub open spec fn define_spec(r: ResolverView, name: Seq<char>) -> ResolverView {
    if r.scopes.len() == 0 {
        r
    } else {
        ResolverView {
            scopes: r.scopes.update(r.scopes.len() - 1, flag_set(r.scopes.last(), name, true)),
            ..r
        }
    }
}

/// Recording which scope a use of `name` refers to, if a local one does.
pub open spec fn local_spec(r: ResolverView, id: usize, name: Seq<char>) -> ResolverView {
    match depth_of(r.scopes, name) {
        Some(d) => ResolverView { resolutions: r.resolutions.push((id, d as usize)), ..r },
        None => r,
    }
}

pub open spec fn resolve_expr_spec(r: ResolverView, e: ExprInfoView) -> ResolverView
    decreases e,
{
    match *e.expr {
        ExprView::Grouping(inner) => resolve_expr_spec(r, inner),
        ExprView::Literal(_) => r,
        ExprView::Nil => r,
        ExprView::Variable(name) => {
            let r1 = if r.scopes.len() > 0 && flag_get(r.scopes.last(), name) == Some(false) {
                ResolverView { errors: r.errors.push(self_ref_view(e.line, name)), ..r }
            } else {
                r
            };
            local_spec(r1, e.id, name)
        },
        ExprView::Assignment(name, value) => local_spec(resolve_expr_spec(r, value), e.id, name),
        ExprView::Unary(_, inner) => resolve_expr_spec(r, inner),
        ExprView::Binary(_, left, right) => resolve_expr_spec(resolve_expr_spec(r, left), right),
        ExprView::Call(callee, args) => resolve_args_spec(resolve_expr_spec(r, callee), args),
    }
}

pub open spec fn resolve_args_spec(r: ResolverView, args: Seq<ExprInfoView>) -> ResolverView
    decreases args,
{
    if args.len() == 0 {
        r
    } else {
        resolve_expr_spec(resolve_args_spec(r, args.drop_last()), args.last())
    }
}

pub open spec fn resolve_params_spec(r: ResolverView, params: Seq<(u32, Seq<char>)>) -> ResolverView
    decreases params.len(),
{
    if params.len() == 0 {
        r
    } else {
        let r1 = resolve_params_spec(r, params.drop_last());
        define_spec(declare_spec(r1, params.last().1, params.last().0), params.last().1)
    }
}

pub open spec fn resolve_stmt_spec(r: ResolverView, s: StmtView) -> ResolverView
    decreases s, 2int,
{
    match s {
        StmtView::Expr(e) => resolve_expr_spec(r, e),
        StmtView::Print(e) => resolve_expr_spec(r, e),
        StmtView::Var(line, name, init) => {
            let r1 = declare_spec(r, name, line);
            let r2 = match init {
                Some(e) => resolve_expr_spec(r1, e),
                None => r1,
            };
            define_spec(r2, name)
        },
        StmtView::Block(list) => {
            let r1 = resolve_list_spec(
                ResolverView { scopes: r.scopes.push(Seq::empty()), ..r },
                list,
            );
            ResolverView { scopes: pop_scope(r1.scopes), ..r1 }
        },
        StmtView::If(c, t, e) => {
            let r1 = resolve_stmt_spec(resolve_expr_spec(r, c), *t);
            match e {
                Some(b) => resolve_stmt_spec(r1, *b),
                None => r1,
            }
        },
        StmtView::While(c, b) => resolve_stmt_spec(resolve_expr_spec(r, c), *b),
        StmtView::Function(line, name, params, body) => {
            let r1 = define_spec(declare_spec(r, name, line), name);
            let r2 = ResolverView { scopes: r1.scopes.push(Seq::empty()), in_function: true, ..r1 };
            let r3 = resolve_list_spec(resolve_params_spec(r2, params), body);
            ResolverView { scopes: pop_scope(r3.scopes), in_function: r1.in_function, ..r3 }
        },
        StmtView::Return(line, v) => {
            let r1 = if !r.in_function {
                ResolverView { errors: r.errors.push(top_return_view(line)), ..r }
            } else {
                r
            };
            match v {
                Some(e) => resolve_expr_spec(r1, e),
                None => r1,
            }
        },
    }
}

pub open spec fn resolve_list_spec(r: ResolverView, list: Seq<StmtView>) -> ResolverView
    decreases list, 1int,
{
    if list.len() == 0 {
        r
    } else {
        resolve_stmt_spec(resolve_list_spec(r, list.drop_last()), list.last())
    }
}


// ---------------------------------------------------------------------------
// Scopes as lists of names.
// ---------------------------------------------------------------------------

pub open spec fn names_view(s: Vec<(String, bool)>) -> Names {
    s@.map_values(|p: (String, bool)| (p.0@, p.1))
}

proof fn lemma_flag_get(d: Names, name: Seq<char>, i: int)
    requires
        0 <= i < d.len(),
        d[i].0 == name,
        forall|j: int| 0 <= j < i ==> d[j].0 != name,
    ensures
        flag_get(d, name) == Some(d[i].1),
    decreases i,
{
    if i > 0 {
        lemma_flag_get(d.subrange(1, d.len() as int), name, i - 1);
    }
}

proof fn lemma_flag_get_none(d: Names, name: Seq<char>)
    requires
        forall|j: int| 0 <= j < d.len() ==> d[j].0 != name,
    ensures
        flag_get(d, name) is None,
    decreases d.len(),
{
    if d.len() > 0 {
        lemma_flag_get_none(d.subrange(1, d.len() as int), name);
    }
}

proof fn lemma_flag_set_at(d: Names, name: Seq<char>, b: bool, i: int)
    requires
        0 <= i < d.len(),
        d[i].0 == name,
        forall|j: int| 0 <= j < i ==> d[j].0 != name,
    ensures
        flag_set(d, name, b) == d.update(i, (name, b)),
    decreases i,
{
    if i > 0 {
        let rest = d.subrange(1, d.len() as int);
        lemma_flag_set_at(rest, name, b, i - 1);
        assert(seq![d[0]] + rest.update(i - 1, (name, b)) =~= d.update(i, (name, b)));
    }
}

proof fn lemma_flag_set_new(d: Names, name: Seq<char>, b: bool)
    requires
        forall|j: int| 0 <= j < d.len() ==> d[j].0 != name,
    ensures
        flag_set(d, name, b) == d.push((name, b)),
    decreases d.len(),
{
    if d.len() > 0 {
        let rest = d.subrange(1, d.len() as int);
        lemma_flag_set_new(rest, name, b);
        assert(seq![d[0]] + rest.push((name, b)) =~= d.push((name, b)));
    }
}

/// Where `name` is in a scope, if it is.
fn find_name(names: &Vec<(String, bool)>, name: &str) -> (r: Option<usize>)
    ensures
        match r {
            Some(i) => i < names@.len() && flag_get(names_view(*names), name@) == Some(
                names@[i as int].1,
            ),
            None => flag_get(names_view(*names), name@) is None,
        },
        r is None ==> forall|j: int| 0 <= j < names@.len() ==> names@[j].0@ != name@,
        r matches Some(i) ==> names@[i as int].0@ == name@ && forall|j: int|
            0 <= j < i ==> names@[j].0@ != name@,
{
    let ghost d = names_view(*names);
    let mut i: usize = 0;
    while i < names.len()
        invariant
            i <= names@.len(),
            d == names_view(*names),
            forall|j: int| 0 <= j < i ==> names@[j].0@ != name@,
        decreases names.len() - i,
    {
        if str_eq(names[i].0.as_str(), name) {
            proof {
                lemma_flag_get(d, name@, i as int);
            }
            return Some(i);
        }
        i = i + 1;
    }
    proof {
        lemma_flag_get_none(d, name@);
    }
    None
}

/// Flags `name` with `b` in a scope, adding it if it is not there.
fn set_flag(names: &mut Vec<(String, bool)>, name: &str, b: bool)
    ensures
        names_view(*final(names)) == flag_set(names_view(*old(names)), name@, b),
{
    let ghost d = names_view(*names);
    match find_name(names, name) {
        Some(i) => {
            proof {
                lemma_flag_set_at(d, name@, b, i as int);
            }
            names.set(i, (String::from_str(name), b));
            assert(names_view(*names) =~= d.update(i as int, (name@, b)));
        },
        None => {
            proof {
                lemma_flag_set_new(d, name@, b);
            }
            names.push((String::from_str(name), b));
            assert(names_view(*names) =~= d.push((name@, b)));
        },
    }
}

// ---------------------------------------------------------------------------
// The resolver.
// ---------------------------------------------------------------------------

#[derive(Clone, Copy, PartialEq, Eq, Structural)]
enum FunctionType {
    TopLevel,
    Function,
}

/// Walks a program before it runs, recording for each use of a local
/// variable the scope it refers to, and collecting the errors it finds.
/// Each local scope is a list of names rather than a hash map: with string
/// keys, the map's specification gives no lookup result to prove a
/// contract against.
pub struct Resolver {
    scopes: Vec<Vec<(String, bool)>>,
    current_function: FunctionType,
    errors: Vec<InterpreterError>,
    resolutions: Vec<(usize, usize)>,
}

impl View for Resolver {
    type V = ResolverView;

    closed spec fn view(&self) -> ResolverView {
        ResolverView {
            scopes: self.scopes@.map_values(|s: Vec<(String, bool)>| names_view(s)),
            in_function: self.current_function == FunctionType::Function,
            errors: self.errors@.map_values(|e: InterpreterError| e@),
            resolutions: self.resolutions@,
        }
    }
}

impl Resolver {
    pub fn new() -> (r: Self)
        ensures
            r@ == (ResolverView {
                scopes: Seq::empty(),
                in_function: false,
                errors: Seq::empty(),
                resolutions: Seq::empty(),
            }),
    {
        let r = Resolver {
            scopes: Vec::new(),
            current_function: FunctionType::TopLevel,
            errors: Vec::new(),
            resolutions: Vec::new(),
        };
        assert(r@.scopes =~= Seq::empty());
        assert(r@.errors =~= Seq::empty());
        r
    }

    /// Whether an error has been found.
    pub fn had_errors(&self) -> (r: bool)
        ensures
            r == (self@.errors.len() > 0),
    {
        self.errors.len() > 0
    }

    /// The errors found, in order.
    pub fn errors(&self) -> (r: &Vec<InterpreterError>)
        ensures
            r@.map_values(|e: InterpreterError| e@) == self@.errors,
    {
        &self.errors
    }

    /// For each use of a local variable, in order: the expression's id and
    /// how many scopes out its variable is.
    pub fn resolutions(&self) -> (r: &Vec<(usize, usize)>)
        ensures
            r@ == self@.resolutions,
    {
        &self.resolutions
    }

    fn begin_scope(&mut self)
        ensures
            final(self)@ == (ResolverView { scopes: old(self)@.scopes.push(Seq::empty()), ..old(self)@ }),
    {
        let names: Vec<(String, bool)> = Vec::new();
        assert(names_view(names) =~= Seq::empty());
        self.scopes.push(names);
        assert(self@.scopes =~= old(self)@.scopes.push(Seq::empty()));
    }

    fn end_scope(&mut self)
        ensures
            final(self)@ == (ResolverView { scopes: pop_scope(old(self)@.scopes), ..old(self)@ }),
    {
        if self.scopes.len() > 0 {
            self.scopes.pop();
            assert(self@.scopes =~= old(self)@.scopes.drop_last());
        }
    }

    fn declare(&mut self, name: &str, line: u32)
        ensures
            final(self)@ == declare_spec(old(self)@, name@, line),
    {
        if self.scopes.len() > 0 {
            let mut last = self.scopes.pop().unwrap();
            let ghost mid = self@;
            assert(mid.scopes =~= old(self)@.scopes.drop_last());
            if find_name(&last, name).is_some() {
                self.errors.push(InterpreterError::already_defined_variable(line, quote(name)));
                assert(self@.errors =~= old(self)@.errors.push(already_defined_view(line, name@)));
            }
            set_flag(&mut last, name, false);
            self.scopes.push(last);
            assert(self@.scopes =~= old(self)@.scopes.update(
                old(self)@.scopes.len() - 1,
                flag_set(old(self)@.scopes.last(), name@, false),
            ));
        }
    }

    fn define(&mut self, name: &str)
        ensures
            final(self)@ == define_spec(old(self)@, name@),
    {
        if self.scopes.len() > 0 {
            let mut last = self.scopes.pop().unwrap();
            set_flag(&mut last, name, true);
            self.scopes.push(last);
            assert(self@.scopes =~= old(self)@.scopes.update(
                old(self)@.scopes.len() - 1,
                flag_set(old(self)@.scopes.last(), name@, true),
            ));
        }
    }

    /// Records the scope that the use `expr` of `name` refers to.
    fn resolve_local_expr(&mut self, expr: &ExprInfo, name: &str)
        ensures
            final(self)@ == local_spec(old(self)@, expr.id, name@),
    {
        let ghost sc = self@.scopes;
        let n = self.scopes.len();
        let mut d: usize = 0;
        assert(sc.take(n as int) =~= sc);
        while d < n
            invariant
                d <= n,
                n == sc.len(),
                sc == self@.scopes,
                self@ == old(self)@,
                depth_of(sc, name@) == match depth_of(sc.take((n - d) as int), name@) {
                    Some(x) => Some((x + d) as nat),
                    None => None,
                },
            decreases n - d,
        {
            let k = n - d;
            assert(sc.take(k as int).drop_last() =~= sc.take(k - 1));
            assert(sc.take(k as int).last() == names_view(self.scopes@[k - 1]));
            if find_name(&self.scopes[k - 1], name).is_some() {
                self.resolutions.push((expr.id, d));
                return;
            }
            d = d + 1;
        }
        assert(sc.take(0) =~= Seq::<Names>::empty());
    }
}


impl Resolver {
    fn resolve_expr(&mut self, expr: &ExprInfo)
        ensures
            final(self)@ == resolve_expr_spec(old(self)@, expr@),
        decreases *expr,
    {
        match &*expr.expr {
            Expr::Grouping { expr: inner } => self.resolve_expr(inner),
            Expr::Literal { .. } => {},
            Expr::Nil => {},
            Expr::Variable { name } => {
                let n = self.scopes.len();
                if n > 0 {
                    let last = &self.scopes[n - 1];
                    assert(self@.scopes.last() == names_view(*last));
                    match find_name(last, name.as_str()) {
                        Some(i) => {
                            if !last[i].1 {
                                let error = InterpreterError::self_ref_initializer(
                                    expr.line,
                                    quote(name.as_str()),
                                );
                                self.errors.push(error);
                                assert(self@.errors =~= old(self)@.errors.push(
                                    self_ref_view(expr.line, name@),
                                ));
                            }
                        },
                        None => {},
                    }
                }
                self.resolve_local_expr(expr, name.as_str());
            },
            Expr::Assignment { name, value } => {
                self.resolve_expr(value);
                self.resolve_local_expr(expr, name.as_str());
            },
            Expr::Unary { op: _, expr: inner } => self.resolve_expr(inner),
            Expr::Binary { op: _, left, right } => {
                self.resolve_expr(left);
                self.resolve_expr(right);
            },
            Expr::Call { callee, args } => {
                self.resolve_expr(callee);
                let ghost r1 = self@;
                let ghost av = exprs_view(args@);
                proof {
                    lemma_exprs_view(args@);
                }
                let mut i: usize = 0;
                assert(av.take(0) =~= Seq::<ExprInfoView>::empty());
                assert(decreases_to!(*expr => *expr.expr));
                assert(decreases_to!(*expr.expr => *args));
                while i < args.len()
                    invariant
                        decreases_to!(*expr => *args),
                        i <= args@.len(),
                        av == exprs_view(args@),
                        av.len() == args@.len(),
                        forall|j: int| 0 <= j < args@.len() ==> #[trigger] av[j] == args@[j]@,
                        self@ == resolve_args_spec(r1, av.take(i as int)),
                        *expr.expr == (Expr::Call { callee: *callee, args: *args }),
                    decreases args.len() - i,
                {
                    assert(av.take(i + 1).drop_last() =~= av.take(i as int));
                    assert(av.take(i + 1).last() == args@[i as int]@);
                    assert(decreases_to!(*args => args@[i as int]));
                    self.resolve_expr(&args[i]);
                    i = i + 1;
                }
                assert(av.take(args@.len() as int) =~= av);
            },
        }
    }

    /// Resolves the statements of a program in order.
    pub fn resolve(&mut self, statements: &[Stmt])
        ensures
            final(self)@ == resolve_list_spec(old(self)@, stmts_view(statements@)),
    {
        let ghost r0 = self@;
        let ghost sv = stmts_view(statements@);
        proof {
            lemma_stmts_view(statements@);
        }
        let mut i: usize = 0;
        assert(sv.take(0) =~= Seq::<StmtView>::empty());
        while i < statements.len()
            invariant
                i <= statements@.len(),
                sv == stmts_view(statements@),
                sv.len() == statements@.len(),
                forall|j: int| 0 <= j < statements@.len() ==> #[trigger] sv[j] == statements@[j]@,
                self@ == resolve_list_spec(r0, sv.take(i as int)),
            decreases statements.len() - i,
        {
            assert(sv.take(i + 1).drop_last() =~= sv.take(i as int));
            assert(sv.take(i + 1).last() == statements@[i as int]@);
            self.resolve_stmt(&statements[i]);
            i = i + 1;
        }
        assert(sv.take(statements@.len() as int) =~= sv);
    }

    /// Resolves the statements of a block or a function body in order.
    fn resolve_list(&mut self, statements: &Vec<Stmt>)
        ensures
            final(self)@ == resolve_list_spec(old(self)@, stmts_view(statements@)),
        decreases *statements, 0int,
    {
        let ghost r0 = self@;
        let ghost sv = stmts_view(statements@);
        proof {
            lemma_stmts_view(statements@);
        }
        let mut i: usize = 0;
        assert(sv.take(0) =~= Seq::<StmtView>::empty());
        while i < statements.len()
            invariant
                i <= statements@.len(),
                sv == stmts_view(statements@),
                sv.len() == statements@.len(),
                forall|j: int| 0 <= j < statements@.len() ==> #[trigger] sv[j] == statements@[j]@,
                self@ == resolve_list_spec(r0, sv.take(i as int)),
            decreases statements.len() - i,
        {
            assert(sv.take(i + 1).drop_last() =~= sv.take(i as int));
            assert(sv.take(i + 1).last() == statements@[i as int]@);
            assert(decreases_to!(*statements => statements@[i as int]));
            self.resolve_stmt(&statements[i]);
            i = i + 1;
        }
        assert(sv.take(statements@.len() as int) =~= sv);
    }

    fn resolve_block(&mut self, statements: &Vec<Stmt>)
        ensures
            final(self)@ == ({
                let r1 = resolve_list_spec(
                    ResolverView { scopes: old(self)@.scopes.push(Seq::empty()), ..old(self)@ },
                    stmts_view(statements@),
                );
                ResolverView { scopes: pop_scope(r1.scopes), ..r1 }
            }),
        decreases *statements, 1int,
    {
        self.begin_scope();
        self.resolve_list(statements);
        self.end_scope();
    }

    fn resolve_function(&mut self, params: &Vec<(u32, String)>, body: &Vec<Stmt>, tpe: FunctionType)
        ensures
            final(self)@ == ({
                let r2 = ResolverView {
                    scopes: old(self)@.scopes.push(Seq::empty()),
                    in_function: tpe == FunctionType::Function,
                    ..old(self)@
                };
                let r3 = resolve_list_spec(
                    resolve_params_spec(
                        r2,
                        params@.map_values(|p: (u32, String)| param_view(p)),
                    ),
                    stmts_view(body@),
                );
                ResolverView {
                    scopes: pop_scope(r3.scopes),
                    in_function: old(self)@.in_function,
                    ..r3
                }
            }),
        decreases *body, 1int,
    {
        let enclosing_function = self.current_function;
        self.current_function = tpe;
        self.begin_scope();
        let ghost r2 = self@;
        let ghost pv = params@.map_values(|p: (u32, String)| param_view(p));
        let mut i: usize = 0;
        assert(pv.take(0) =~= Seq::<(u32, Seq<char>)>::empty());
        while i < params.len()
            invariant
                i <= params@.len(),
                pv == params@.map_values(|p: (u32, String)| param_view(p)),
                self@ == resolve_params_spec(r2, pv.take(i as int)),
            decreases params.len() - i,
        {
            let (p_line, param) = &params[i];
            assert(pv.take(i + 1).drop_last() =~= pv.take(i as int));
            assert(pv.take(i + 1).last() == (*p_line, param@));
            self.declare(param.as_str(), *p_line);
            self.define(param.as_str());
            i = i + 1;
        }
        assert(pv.take(params@.len() as int) =~= pv);
        self.resolve_list(body);
        self.end_scope();
        self.current_function = enclosing_function;
    }

    fn resolve_stmt(&mut self, stmt: &Stmt)
        ensures
            final(self)@ == resolve_stmt_spec(old(self)@, stmt@),
        decreases *stmt, 2int,
    {
        match stmt {
            Stmt::Expr { expr } => self.resolve_expr(expr),
            Stmt::Print { expr } => self.resolve_expr(expr),
            Stmt::Var { line, name, initializer } => {
                self.declare(name.as_str(), *line);
                match initializer {
                    Some(init) => self.resolve_expr(init),
                    None => {},
                }
                self.define(name.as_str());
            },
            Stmt::Block { statements } => self.resolve_block(&**statements),
            Stmt::If { condition, then_branch, else_branch } => {
                self.resolve_expr(condition);
                self.resolve_stmt(&**then_branch);
                match else_branch {
                    Some(b) => self.resolve_stmt(&**b),
                    None => {},
                }
            },
            Stmt::While { condition, stmt: body } => {
                self.resolve_expr(condition);
                self.resolve_stmt(&**body);
            },
            Stmt::Function { line, name, params, body } => {
                self.declare(name.as_str(), *line);
                self.define(name.as_str());
                self.resolve_function(params, &**body, FunctionType::Function);
            },
            Stmt::Return { line, value } => {
                if self.current_function == FunctionType::TopLevel {
                    let error = InterpreterError::top_level_return(
                        *line,
                        String::from_str("'return'"),
                    );
                    self.errors.push(error);
                    assert(self@.errors =~= old(self)@.errors.push(top_return_view(*line)));
                }
                match value {
                    Some(e) => self.resolve_expr(e),
                    None => {},
                }
            },
        }
    }
}


// ---------------------------------------------------------------------------
// What resolving keeps.
// ---------------------------------------------------------------------------

/// `r2` has as many scopes open as `r`, is inside a function exactly when
/// `r` is, and extends `r`'s errors and resolutions.
pub open spec fn resolver_keeps(r: ResolverView, r2: ResolverView) -> bool {
    &&& r2.scopes.len() == r.scopes.len()
    &&& r2.in_function == r.in_function
    &&& r.errors.len() <= r2.errors.len()
    &&& r2.errors.subrange(0, r.errors.len() as int) == r.errors
    &&& r.resolutions.len() <= r2.resolutions.len()
    &&& r2.resolutions.subrange(0, r.resolutions.len() as int) == r.resolutions
}

/// `r2` extends the errors and resolutions of `r`.
pub open spec fn resolver_grows(r: ResolverView, r2: ResolverView) -> bool {
    &&& r.errors.len() <= r2.errors.len()
    &&& r2.errors.subrange(0, r.errors.len() as int) == r.errors
    &&& r.resolutions.len() <= r2.resolutions.len()
    &&& r2.resolutions.subrange(0, r.resolutions.len() as int) == r.resolutions
}

proof fn lemma_grows_trans(a: ResolverView, b: ResolverView, c: ResolverView)
    requires
        resolver_grows(a, b),
        resolver_grows(b, c),
    ensures
        resolver_grows(a, c),
{
    assert(c.errors.subrange(0, a.errors.len() as int) =~= b.errors.subrange(
        0,
        a.errors.len() as int,
    ));
    assert(c.resolutions.subrange(0, a.resolutions.len() as int) =~= b.resolutions.subrange(
        0,
        a.resolutions.len() as int,
    ));
}

proof fn lemma_grows_refl(a: ResolverView)
    ensures
        resolver_grows(a, a),
{
    assert(a.errors.subrange(0, a.errors.len() as int) =~= a.errors);
    assert(a.resolutions.subrange(0, a.resolutions.len() as int) =~= a.resolutions);
}

proof fn lemma_grows_push_error(a: ResolverView, e: ErrorView)
    ensures
        resolver_grows(a, ResolverView { errors: a.errors.push(e), ..a }),
{
    assert(a.errors.push(e).subrange(0, a.errors.len() as int) =~= a.errors);
    assert(a.resolutions.subrange(0, a.resolutions.len() as int) =~= a.resolutions);
}

proof fn lemma_local_grows(r: ResolverView, id: usize, name: Seq<char>)
    ensures
        resolver_grows(r, local_spec(r, id, name)),
        local_spec(r, id, name).scopes == r.scopes,
        local_spec(r, id, name).in_function == r.in_function,
{
    lemma_grows_refl(r);
    if let Some(d) = depth_of(r.scopes, name) {
        assert(r.resolutions.push((id, d as usize)).subrange(0, r.resolutions.len() as int)
            =~= r.resolutions);
    }
}

proof fn lemma_declare_define(r: ResolverView, name: Seq<char>, line: u32)
    ensures
        resolver_grows(r, declare_spec(r, name, line)),
        declare_spec(r, name, line).scopes.len() == r.scopes.len(),
        declare_spec(r, name, line).in_function == r.in_function,
        resolver_grows(r, define_spec(r, name)),
        define_spec(r, name).scopes.len() == r.scopes.len(),
        define_spec(r, name).in_function == r.in_function,
{
    lemma_grows_refl(r);
    if r.scopes.len() > 0 && flag_get(r.scopes.last(), name) is Some {
        lemma_grows_push_error(r, already_defined_view(line, name));
    }
}

proof fn lemma_expr_keeps(r: ResolverView, e: ExprInfoView)
    ensures
        resolver_grows(r, resolve_expr_spec(r, e)),
        resolve_expr_spec(r, e).scopes == r.scopes,
        resolve_expr_spec(r, e).in_function == r.in_function,
    decreases e,
{
    lemma_grows_refl(r);
    match *e.expr {
        ExprView::Grouping(inner) => lemma_expr_keeps(r, inner),
        ExprView::Variable(name) => {
            let r1 = if r.scopes.len() > 0 && flag_get(r.scopes.last(), name) == Some(false) {
                lemma_grows_push_error(r, self_ref_view(e.line, name));
                ResolverView { errors: r.errors.push(self_ref_view(e.line, name)), ..r }
            } else {
                r
            };
            lemma_local_grows(r1, e.id, name);
            lemma_grows_trans(r, r1, local_spec(r1, e.id, name));
        },
        ExprView::Assignment(name, value) => {
            let r1 = resolve_expr_spec(r, value);
            lemma_expr_keeps(r, value);
            lemma_local_grows(r1, e.id, name);
            lemma_grows_trans(r, r1, local_spec(r1, e.id, name));
        },
        ExprView::Unary(_, inner) => lemma_expr_keeps(r, inner),
        ExprView::Binary(_, left, right) => {
            let r1 = resolve_expr_spec(r, left);
            lemma_expr_keeps(r, left);
            lemma_expr_keeps(r1, right);
            lemma_grows_trans(r, r1, resolve_expr_spec(r1, right));
        },
        ExprView::Call(callee, args) => {
            let r1 = resolve_expr_spec(r, callee);
            lemma_expr_keeps(r, callee);
            lemma_args_keeps(r1, args);
            lemma_grows_trans(r, r1, resolve_args_spec(r1, args));
        },
        _ => {},
    }
}

proof fn lemma_args_keeps(r: ResolverView, args: Seq<ExprInfoView>)
    ensures
        resolver_grows(r, resolve_args_spec(r, args)),
        resolve_args_spec(r, args).scopes == r.scopes,
        resolve_args_spec(r, args).in_function == r.in_function,
    decreases args,
{
    lemma_grows_refl(r);
    if args.len() > 0 {
        let r1 = resolve_args_spec(r, args.drop_last());
        lemma_args_keeps(r, args.drop_last());
        lemma_expr_keeps(r1, args.last());
        lemma_grows_trans(r, r1, resolve_expr_spec(r1, args.last()));
    }
}

proof fn lemma_params_keeps(r: ResolverView, params: Seq<(u32, Seq<char>)>)
    ensures
        resolver_grows(r, resolve_params_spec(r, params)),
        resolve_params_spec(r, params).scopes.len() == r.scopes.len(),
        resolve_params_spec(r, params).in_function == r.in_function,
    decreases params.len(),
{
    lemma_grows_refl(r);
    if params.len() > 0 {
        let r1 = resolve_params_spec(r, params.drop_last());
        lemma_params_keeps(r, params.drop_last());
        let r2 = declare_spec(r1, params.last().1, params.last().0);
        lemma_declare_define(r1, params.last().1, params.last().0);
        lemma_declare_define(r2, params.last().1, params.last().0);
        lemma_grows_trans(r, r1, r2);
        lemma_grows_trans(r, r2, define_spec(r2, params.last().1));
    }
}

proof fn lemma_stmt_keeps(r: ResolverView, s: StmtView)
    ensures
        resolver_keeps(r, resolve_stmt_spec(r, s)),
    decreases s, 2int,
{
    lemma_grows_refl(r);
    match s {
        StmtView::Expr(e) => lemma_expr_keeps(r, e),
        StmtView::Print(e) => lemma_expr_keeps(r, e),
        StmtView::Var(line, name, init) => {
            let r1 = declare_spec(r, name, line);
            lemma_declare_define(r, name, line);
            let r2 = match init {
                Some(e) => {
                    lemma_expr_keeps(r1, e);
                    resolve_expr_spec(r1, e)
                },
                None => {
                    lemma_grows_refl(r1);
                    r1
                },
            };
            lemma_grows_trans(r, r1, r2);
            lemma_declare_define(r2, name, line);
            lemma_grows_trans(r, r2, define_spec(r2, name));
        },
        StmtView::Block(list) => {
            let r0 = ResolverView { scopes: r.scopes.push(Seq::empty()), ..r };
            lemma_list_keeps(r0, list);
        },
        StmtView::If(c, t, e) => {
            let r1 = resolve_expr_spec(r, c);
            lemma_expr_keeps(r, c);
            let r2 = resolve_stmt_spec(r1, *t);
            lemma_stmt_keeps(r1, *t);
            lemma_grows_trans(r, r1, r2);
            if let Some(b) = e {
                lemma_stmt_keeps(r2, *b);
                lemma_grows_trans(r, r2, resolve_stmt_spec(r2, *b));
            }
        },
        StmtView::While(c, b) => {
            let r1 = resolve_expr_spec(r, c);
            lemma_expr_keeps(r, c);
            lemma_stmt_keeps(r1, *b);
            lemma_grows_trans(r, r1, resolve_stmt_spec(r1, *b));
        },
        StmtView::Function(line, name, params, body) => {
            let r0 = declare_spec(r, name, line);
            lemma_declare_define(r, name, line);
            let r1 = define_spec(r0, name);
            lemma_declare_define(r0, name, line);
            lemma_grows_trans(r, r0, r1);
            let r2 = ResolverView { scopes: r1.scopes.push(Seq::empty()), in_function: true, ..r1 };
            let r2p = resolve_params_spec(r2, params);
            lemma_params_keeps(r2, params);
            lemma_list_keeps(r2p, body);
            lemma_grows_trans(r2, r2p, resolve_list_spec(r2p, body));
            lemma_grows_trans(r, r1, resolve_list_spec(r2p, body));
        },
        StmtView::Return(line, v) => {
            let r1 = if !r.in_function {
                lemma_grows_push_error(r, top_return_view(line));
                ResolverView { errors: r.errors.push(top_return_view(line)), ..r }
            } else {
                r
            };
            if let Some(e) = v {
                lemma_expr_keeps(r1, e);
                lemma_grows_trans(r, r1, resolve_expr_spec(r1, e));
            }
        },
    }
}

proof fn lemma_list_keeps(r: ResolverView, list: Seq<StmtView>)
    ensures
        resolver_keeps(r, resolve_list_spec(r, list)),
    decreases list, 1int,
{
    lemma_grows_refl(r);
    if list.len() > 0 {
        let r1 = resolve_list_spec(r, list.drop_last());
        lemma_list_keeps(r, list.drop_last());
        lemma_stmt_keeps(r1, list.last());
        lemma_grows_trans(r, r1, resolve_stmt_spec(r1, list.last()));
    }
}

/// Resolving statements leaves as many local scopes open as it found,
/// leaves the resolver inside a function exactly when it was, and only ever
/// adds errors and resolutions after those already found.
pub proof fn law_resolve_keeps(r: ResolverView, list: Seq<StmtView>)
    ensures
        resolver_keeps(r, resolve_list_spec(r, list)),
{
    lemma_list_keeps(r, list);
}

/// The depth found for a name is that of the innermost open scope that
/// declares it, counted outwards from the innermost scope; there is none
/// exactly when no open scope declares it.
pub proof fn law_depth_is_nearest(scopes: Seq<Names>, name: Seq<char>)
    ensures
        depth_of(scopes, name) matches Some(d) ==> {
            &&& d < scopes.len()
            &&& flag_get(scopes[scopes.len() - 1 - d], name) is Some
            &&& forall|j: int|
                scopes.len() - 1 - d < j < scopes.len() ==> flag_get(#[trigger] scopes[j], name) is None
        },
        depth_of(scopes, name) is None ==> forall|j: int|
            0 <= j < scopes.len() ==> flag_get(#[trigger] scopes[j], name) is None,
    decreases scopes.len(),
{
    if scopes.len() > 0 && flag_get(scopes.last(), name) is None {
        let inner = scopes.drop_last();
        law_depth_is_nearest(inner, name);
        assert forall|j: int| 0 <= j < inner.len() implies #[trigger] inner[j] == scopes[j] by {}
        if let Some(d) = depth_of(inner, name) {
            assert(inner[inner.len() - 1 - d] == scopes[scopes.len() - 1 - (d + 1)]);
            assert forall|j: int| scopes.len() - 1 - (d + 1) < j < scopes.len() implies flag_get(
                #[trigger] scopes[j],
                name,
            ) is None by {
                if j < scopes.len() - 1 {
                    assert(inner[j] == scopes[j]);
                }
            }
        } else {
            assert forall|j: int| 0 <= j < scopes.len() implies flag_get(#[trigger] scopes[j], name)
                is None by {
                if j < scopes.len() - 1 {
                    assert(inner[j] == scopes[j]);
                }
            }
        }
    }
}

/// A variable read or assigned is recorded, with the node's id, at the
/// depth of the nearest open scope that declares its name, the same for a
/// read as for an assignment; a name that no open scope declares is left
/// to the global scope and nothing is recorded. An assignment's value is
/// resolved before the assignment itself.
pub proof fn law_local_uses_resolved(r: ResolverView, e: ExprInfoView)
    ensures
        match *e.expr {
            ExprView::Variable(name) => match depth_of(r.scopes, name) {
                Some(d) => resolve_expr_spec(r, e).resolutions == r.resolutions.push((e.id, d as usize)),
                None => resolve_expr_spec(r, e).resolutions == r.resolutions,
            },
            ExprView::Assignment(name, value) => match depth_of(r.scopes, name) {
                Some(d) => resolve_expr_spec(r, e).resolutions == resolve_expr_spec(
                    r,
                    value,
                ).resolutions.push((e.id, d as usize)),
                None => resolve_expr_spec(r, e).resolutions == resolve_expr_spec(r, value).resolutions,
            },
            _ => true,
        },
{
    if let ExprView::Assignment(name, value) = *e.expr {
        lemma_expr_keeps(r, value);
    }
}

proof fn lemma_flag_set_get(d: Names, name: Seq<char>, b: bool)
    ensures
        flag_get(flag_set(d, name, b), name) == Some(b),
    decreases d.len(),
{
    if d.len() > 0 && d[0].0 != name {
        let rest = d.subrange(1, d.len() as int);
        lemma_flag_set_get(rest, name, b);
        let f = flag_set(d, name, b);
        assert(f.subrange(1, f.len() as int) =~= flag_set(rest, name, b));
    }
}

/// A `var` inside a block declares its name in the innermost scope: from
/// then on the name resolves there, at depth 0, and is usable; declaring a
/// name that the innermost scope already has is reported first, with the
/// declaration's line, and otherwise a declaration without an initializer
/// reports nothing.
pub proof fn law_var_declares_locally(r: ResolverView, line: u32, name: Seq<char>, init: Option<ExprInfoView>)
    requires
        r.scopes.len() > 0,
    ensures
        ({
            let r2 = resolve_stmt_spec(r, StmtView::Var(line, name, init));
            &&& r2.scopes.len() == r.scopes.len()
            &&& depth_of(r2.scopes, name) == Some(0nat)
            &&& flag_get(r2.scopes.last(), name) == Some(true)
            &&& r2.errors.len() >= r.errors.len()
            &&& flag_get(r.scopes.last(), name) is Some ==> r2.errors.len() > r.errors.len()
                && r2.errors[r.errors.len() as int] == already_defined_view(line, name)
            &&& flag_get(r.scopes.last(), name) is None && init is None ==> r2.errors == r.errors
        }),
{
    let r1 = declare_spec(r, name, line);
    lemma_declare_define(r, name, line);
    let r2 = match init {
        Some(e) => resolve_expr_spec(r1, e),
        None => r1,
    };
    if let Some(e) = init {
        lemma_expr_keeps(r1, e);
    } else {
        lemma_grows_refl(r1);
    }
    lemma_grows_trans(r, r1, r2);
    let r3 = define_spec(r2, name);
    lemma_flag_set_get(r2.scopes.last(), name, true);
    assert(r3.scopes.last() == flag_set(r2.scopes.last(), name, true));
    if flag_get(r.scopes.last(), name) is Some {
        assert(r1.errors == r.errors.push(already_defined_view(line, name)));
        assert(r2.errors.subrange(0, r1.errors.len() as int) == r1.errors);
        assert(r2.errors[r.errors.len() as int] == r2.errors.subrange(0, r1.errors.len() as int)[r.errors.len() as int]);
    }
}

/// Reading a name in its own initializer (declared in the innermost scope
/// but not yet usable) is reported, with the read's line; and a `return`
/// outside any function is reported, with its line, before its value is
/// resolved.
pub proof fn law_static_errors(r: ResolverView, e: ExprInfoView, line: u32, v: Option<ExprInfoView>)
    ensures
        ({
            let r2 = resolve_expr_spec(r, e);
            *e.expr matches ExprView::Variable(name) ==> (r.scopes.len() > 0 && flag_get(r.scopes.last(), name)
                == Some(false) <==> r2.errors == r.errors.push(self_ref_view(e.line, name)))
        }),
        ({
            let r3 = resolve_stmt_spec(r, StmtView::Return(line, v));
            &&& !r.in_function ==> r3.errors.len() > r.errors.len() && r3.errors[r.errors.len() as int]
                == top_return_view(line)
            &&& r.in_function && v is None ==> r3.errors == r.errors
        }),
{
    if let ExprView::Variable(name) = *e.expr {
        let r1 = if r.scopes.len() > 0 && flag_get(r.scopes.last(), name) == Some(false) {
            ResolverView { errors: r.errors.push(self_ref_view(e.line, name)), ..r }
        } else {
            r
        };
        assert(local_spec(r1, e.id, name).errors == r1.errors);
        if !(r.scopes.len() > 0 && flag_get(r.scopes.last(), name) == Some(false)) {
            assert(r.errors.len() != r.errors.push(self_ref_view(e.line, name)).len());
        }
    }
    let r1 = if !r.in_function {
        ResolverView { errors: r.errors.push(top_return_view(line)), ..r }
    } else {
        r
    };
    if let Some(x) = v {
        lemma_expr_keeps(r1, x);
        assert(resolve_expr_spec(r1, x).errors.subrange(0, r1.errors.len() as int) == r1.errors);
        if !r.in_function {
            assert(resolve_expr_spec(r1, x).errors[r.errors.len() as int] == resolve_expr_spec(r1, x).errors.subrange(0, r1.errors.len() as int)[r.errors.len() as int]);
        }
    }
}

} // verus!
