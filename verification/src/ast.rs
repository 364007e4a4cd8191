use vstd::prelude::*;

use std::rc::Rc;

use crate::errors::{error_location, ErrorView, InterpreterError};
use crate::scanner::models::{kind_lexeme, TokenInfo, TokenKind};

verus! {

/// Another pointer to the same value (`Rc::clone`).
/// Trusted: the clone points to the value `r` points to, as std documents.
#[verifier::external_body]
pub fn rc_clone<T>(r: &Rc<T>) -> (c: Rc<T>)
    ensures
        c == *r,
{
    Rc::clone(r)
}

#[derive(Clone, Copy, PartialEq, Eq, Structural, Debug)]
pub enum UnaryOp {
    /// `-a`
    Negative,
    /// `!a`
    Not,
}

#[derive(Clone, Copy, PartialEq, Eq, Structural, Debug)]
pub enum BinaryOp {
    Equals,
    NotEquals,
    Less,
    LessEquals,
    Greater,
    GreaterEquals,
    Plus,
    Minus,
    Multiply,
    Divide,
    Or,
    And,
}

/// A literal written in the source. A number keeps its digits: turning them
/// into a floating-point value is left to whoever runs the program.
#[derive(Debug)]
pub enum Literal {
    Str { value: String },
    Num { lexeme: String },
    Boolean { value: bool },
}

/// An expression with the line it was found on and its node id.
#[derive(Debug)]
pub struct ExprInfo {
    pub expr: Rc<Expr>,
    pub line: u32,
    pub id: usize,
}

#[derive(Debug)]
pub enum Expr {
    Grouping { expr: ExprInfo },
    Literal { value: Literal },
    Nil,
    Variable { name: String },
    Assignment { name: String, value: ExprInfo },
    Unary { op: UnaryOp, expr: ExprInfo },
    Binary { op: BinaryOp, left: ExprInfo, right: ExprInfo },
    Call { callee: ExprInfo, args: Vec<ExprInfo> },
}

#[derive(Debug)]
pub enum Stmt {
    Expr { expr: ExprInfo },
    Print { expr: ExprInfo },
    Var { line: u32, name: String, initializer: Option<ExprInfo> },
    Block { statements: Rc<Vec<Stmt>> },
    If { condition: ExprInfo, then_branch: Rc<Stmt>, else_branch: Option<Rc<Stmt>> },
    While { condition: ExprInfo, stmt: Rc<Stmt> },
    Function { line: u32, name: String, params: Vec<(u32, String)>, body: Rc<Vec<Stmt>> },
    Return { line: u32, value: Option<ExprInfo> },
}

// ---------------------------------------------------------------------------
// The syntax tree as plain values.
// ---------------------------------------------------------------------------

pub enum LiteralView {
    Str(Seq<char>),
    Num(Seq<char>),
    Boolean(bool),
}

pub struct ExprInfoView {
    pub expr: Box<ExprView>,
    pub line: u32,
    pub id: usize,
}

pub enum ExprView {
    Grouping(ExprInfoView),
    Literal(LiteralView),
    Nil,
    Variable(Seq<char>),
    Assignment(Seq<char>, ExprInfoView),
    Unary(UnaryOp, ExprInfoView),
    Binary(BinaryOp, ExprInfoView, ExprInfoView),
    Call(ExprInfoView, Seq<ExprInfoView>),
}

pub enum StmtView {
    Expr(ExprInfoView),
    Print(ExprInfoView),
    Var(u32, Seq<char>, Option<ExprInfoView>),
    Block(Seq<StmtView>),
    If(ExprInfoView, Box<StmtView>, Option<Box<StmtView>>),
    While(ExprInfoView, Box<StmtView>),
    Function(u32, Seq<char>, Seq<(u32, Seq<char>)>, Seq<StmtView>),
    Return(u32, Option<ExprInfoView>),
}

pub open spec fn literal_view(l: Literal) -> LiteralView {
    match l {
        Literal::Str { value } => LiteralView::Str(value@),
        Literal::Num { lexeme } => LiteralView::Num(lexeme@),
        Literal::Boolean { value } => LiteralView::Boolean(value),
    }
}

pub open spec fn expr_info_view(e: ExprInfo) -> ExprInfoView
    decreases e,
{
    ExprInfoView { expr: Box::new(expr_view(*e.expr)), line: e.line, id: e.id }
}

pub open spec fn expr_view(e: Expr) -> ExprView
    decreases e,
{
    match e {
        Expr::Grouping { expr } => ExprView::Grouping(expr_info_view(expr)),
        Expr::Literal { value } => ExprView::Literal(literal_view(value)),
        Expr::Nil => ExprView::Nil,
        Expr::Variable { name } => ExprView::Variable(name@),
        Expr::Assignment { name, value } => ExprView::Assignment(name@, expr_info_view(value)),
        Expr::Unary { op, expr } => ExprView::Unary(op, expr_info_view(expr)),
        Expr::Binary { op, left, right } => ExprView::Binary(
            op,
            expr_info_view(left),
            expr_info_view(right),
        ),
        Expr::Call { callee, args } => ExprView::Call(expr_info_view(callee), exprs_view(args@)),
    }
}

pub open spec fn exprs_view(s: Seq<ExprInfo>) -> Seq<ExprInfoView>
    decreases s,
{
    if s.len() == 0 {
        Seq::empty()
    } else {
        seq![expr_info_view(s[0])] + exprs_view(s.subrange(1, s.len() as int))
    }
}

pub open spec fn param_view(p: (u32, String)) -> (u32, Seq<char>) {
    (p.0, p.1@)
}

pub open spec fn stmt_view(s: Stmt) -> StmtView
    decreases s,
{
    match s {
        Stmt::Expr { expr } => StmtView::Expr(expr_info_view(expr)),
        Stmt::Print { expr } => StmtView::Print(expr_info_view(expr)),
        Stmt::Var { line, name, initializer } => StmtView::Var(
            line,
            name@,
            match initializer {
                Some(e) => Some(expr_info_view(e)),
                None => None,
            },
        ),
        Stmt::Block { statements } => StmtView::Block(stmts_view((*statements)@)),
        Stmt::If { condition, then_branch, else_branch } => StmtView::If(
            expr_info_view(condition),
            Box::new(stmt_view(*then_branch)),
            match else_branch {
                Some(e) => Some(Box::new(stmt_view(*e))),
                None => None,
            },
        ),
        Stmt::While { condition, stmt } => StmtView::While(
            expr_info_view(condition),
            Box::new(stmt_view(*stmt)),
        ),
        Stmt::Function { line, name, params, body } => StmtView::Function(
            line,
            name@,
            params@.map_values(|p: (u32, String)| param_view(p)),
            stmts_view((*body)@),
        ),
        Stmt::Return { line, value } => StmtView::Return(
            line,
            match value {
                Some(e) => Some(expr_info_view(e)),
                None => None,
            },
        ),
    }
}

pub open spec fn stmts_view(s: Seq<Stmt>) -> Seq<StmtView>
    decreases s,
{
    if s.len() == 0 {
        Seq::empty()
    } else {
        seq![stmt_view(s[0])] + stmts_view(s.subrange(1, s.len() as int))
    }
}

impl View for ExprInfo {
    type V = ExprInfoView;

    open spec fn view(&self) -> ExprInfoView {
        expr_info_view(*self)
    }
}

impl View for Stmt {
    type V = StmtView;

    open spec fn view(&self) -> StmtView {
        stmt_view(*self)
    }
}

/// The view of a sequence of expressions is the sequence of their views.
pub broadcast proof fn lemma_exprs_view(s: Seq<ExprInfo>)
    ensures
        #[trigger] exprs_view(s).len() == s.len(),
        forall|i: int| 0 <= i < s.len() ==> #[trigger] exprs_view(s)[i] == expr_info_view(s[i]),
    decreases s.len(),
{
    if s.len() > 0 {
        lemma_exprs_view(s.subrange(1, s.len() as int));
    }
}

/// The view of a sequence of statements is the sequence of their views.
pub broadcast proof fn lemma_stmts_view(s: Seq<Stmt>)
    ensures
        #[trigger] stmts_view(s).len() == s.len(),
        forall|i: int| 0 <= i < s.len() ==> #[trigger] stmts_view(s)[i] == stmt_view(s[i]),
    decreases s.len(),
{
    if s.len() > 0 {
        lemma_stmts_view(s.subrange(1, s.len() as int));
    }
}

/// The operator an operator token stands for in a binary expression.
pub open spec fn binary_op_of(k: TokenKind) -> Option<BinaryOp> {
    match k {
        TokenKind::EqualEqual => Some(BinaryOp::Equals),
        TokenKind::BangEqual => Some(BinaryOp::NotEquals),
        TokenKind::Greater => Some(BinaryOp::Greater),
        TokenKind::GreaterEqual => Some(BinaryOp::GreaterEquals),
        TokenKind::Less => Some(BinaryOp::Less),
        TokenKind::LessEqual => Some(BinaryOp::LessEquals),
        TokenKind::Minus => Some(BinaryOp::Minus),
        TokenKind::Plus => Some(BinaryOp::Plus),
        TokenKind::Star => Some(BinaryOp::Multiply),
        TokenKind::Slash => Some(BinaryOp::Divide),
        TokenKind::Or => Some(BinaryOp::Or),
        TokenKind::And => Some(BinaryOp::And),
        _ => None,
    }
}

/// The operator an operator token stands for in a unary expression.
pub open spec fn unary_op_of(k: TokenKind) -> Option<UnaryOp> {
    match k {
        TokenKind::Bang => Some(UnaryOp::Not),
        TokenKind::Minus => Some(UnaryOp::Negative),
        _ => None,
    }
}

/// An expression node as plain values.
pub open spec fn node(id: usize, expr: ExprView, line: u32) -> ExprInfoView {
    ExprInfoView { expr: Box::new(expr), line, id }
}

impl Clone for ExprInfo {
    fn clone(&self) -> (r: Self)
        ensures
            r == *self,
    {
        ExprInfo { expr: rc_clone(&self.expr), line: self.line, id: self.id }
    }
}

impl ExprInfo {
    pub fn new(id: usize, expr: Expr, line: u32) -> (r: Self)
        ensures
            r@ == node(id, expr_view(expr), line),
    {
        ExprInfo { id, expr: Rc::new(expr), line }
    }

    pub fn binary(pos: usize, id: usize, left: ExprInfo, operator: &TokenInfo, right: ExprInfo) -> (r:
        Result<ExprInfo, InterpreterError>)
        ensures
            match binary_op_of(operator.token@.kind) {
                Some(op) => r matches Ok(e) && e@ == node(
                    id,
                    ExprView::Binary(op, left@, right@),
                    operator.line,
                ),
                None => r matches Err(e) && e@ == (ErrorView::Parser {
                    line: operator.line,
                    pos,
                    location: error_location(operator.token@),
                    message: "'"@ + operator.token@.lexeme() + "' is not a binary operator"@,
                }),
            },
    {
        let op = match operator.token.kind() {
            TokenKind::EqualEqual => BinaryOp::Equals,
            TokenKind::BangEqual => BinaryOp::NotEquals,
            TokenKind::Greater => BinaryOp::Greater,
            TokenKind::GreaterEqual => BinaryOp::GreaterEquals,
            TokenKind::Less => BinaryOp::Less,
            TokenKind::LessEqual => BinaryOp::LessEquals,
            TokenKind::Minus => BinaryOp::Minus,
            TokenKind::Plus => BinaryOp::Plus,
            TokenKind::Star => BinaryOp::Multiply,
            TokenKind::Slash => BinaryOp::Divide,
            TokenKind::Or => BinaryOp::Or,
            TokenKind::And => BinaryOp::And,
            _ => {
                let mut message = String::from_str("'");
                message.append(operator.token.lexeme());
                message.append("' is not a binary operator");
                return Err(InterpreterError::parser_error(pos, operator, message));
            },
        };
        Ok(ExprInfo::new(id, Expr::Binary { op, left, right }, operator.line))
    }

    pub fn unary(pos: usize, id: usize, operator: &TokenInfo, arg: ExprInfo) -> (r: Result<
        ExprInfo,
        InterpreterError,
    >)
        ensures
            match unary_op_of(operator.token@.kind) {
                Some(op) => r matches Ok(e) && e@ == node(
                    id,
                    ExprView::Unary(op, arg@),
                    operator.line,
                ),
                None => r matches Err(e) && e@ == (ErrorView::Parser {
                    line: operator.line,
                    pos,
                    location: error_location(operator.token@),
                    message: "'"@ + operator.token@.lexeme() + "' is not an unary operator"@,
                }),
            },
    {
        let op = match operator.token.kind() {
            TokenKind::Bang => UnaryOp::Not,
            TokenKind::Minus => UnaryOp::Negative,
            _ => {
                let mut message = String::from_str("'");
                message.append(operator.token.lexeme());
                message.append("' is not an unary operator");
                return Err(InterpreterError::parser_error(pos, operator, message));
            },
        };
        Ok(ExprInfo::new(id, Expr::Unary { op, expr: arg }, operator.line))
    }

    pub fn assignment(id: usize, name: String, line: u32, value: ExprInfo) -> (r: ExprInfo)
        ensures
            r@ == node(id, ExprView::Assignment(name@, value@), line),
    {
        ExprInfo::new(id, Expr::Assignment { name, value }, line)
    }

    pub fn call(line: u32, id: usize, callee: ExprInfo, args: Vec<ExprInfo>) -> (r: ExprInfo)
        ensures
            r@ == node(id, ExprView::Call(callee@, exprs_view(args@)), line),
    {
        ExprInfo::new(id, Expr::Call { callee, args }, line)
    }
}


// ---------------------------------------------------------------------------
// Equality of syntax trees.
// ---------------------------------------------------------------------------

fn literal_eq(a: &Literal, b: &Literal) -> (r: bool)
    ensures
        r == (literal_view(*a) == literal_view(*b)),
{
    match (a, b) {
        (Literal::Str { value: x }, Literal::Str { value: y }) => *x == *y,
        (Literal::Num { lexeme: x }, Literal::Num { lexeme: y }) => *x == *y,
        (Literal::Boolean { value: x }, Literal::Boolean { value: y }) => *x == *y,
        _ => false,
    }
}

/// Whether two expressions are the same tree (ids and lines included).
pub fn expr_info_eq(a: &ExprInfo, b: &ExprInfo) -> (r: bool)
    ensures
        r == (a@ == b@),
    decreases *a,
{
    if a.line != b.line || a.id != b.id {
        return false;
    }
    expr_eq(&*a.expr, &*b.expr)
}

fn expr_eq(a: &Expr, b: &Expr) -> (r: bool)
    ensures
        r == (expr_view(*a) == expr_view(*b)),
    decreases *a,
{
    match (a, b) {
        (Expr::Grouping { expr: x }, Expr::Grouping { expr: y }) => expr_info_eq(x, y),
        (Expr::Literal { value: x }, Expr::Literal { value: y }) => literal_eq(x, y),
        (Expr::Nil, Expr::Nil) => true,
        (Expr::Variable { name: x }, Expr::Variable { name: y }) => *x == *y,
        (Expr::Assignment { name: n1, value: v1 }, Expr::Assignment { name: n2, value: v2 }) => {
            *n1 == *n2 && expr_info_eq(v1, v2)
        },
        (Expr::Unary { op: o1, expr: e1 }, Expr::Unary { op: o2, expr: e2 }) => {
            *o1 == *o2 && expr_info_eq(e1, e2)
        },
        (
            Expr::Binary { op: o1, left: l1, right: r1 },
            Expr::Binary { op: o2, left: l2, right: r2 },
        ) => { *o1 == *o2 && expr_info_eq(l1, l2) && expr_info_eq(r1, r2) },
        (Expr::Call { callee: c1, args: a1 }, Expr::Call { callee: c2, args: a2 }) => {
            expr_info_eq(c1, c2) && exprs_eq(a1, a2)
        },
        _ => false,
    }
}

fn exprs_eq(a: &Vec<ExprInfo>, b: &Vec<ExprInfo>) -> (r: bool)
    ensures
        r == (exprs_view(a@) == exprs_view(b@)),
    decreases *a,
{
    proof {
        lemma_exprs_view(a@);
        lemma_exprs_view(b@);
    }
    if a.len() != b.len() {
        return false;
    }
    let mut i: usize = 0;
    while i < a.len()
        invariant
            a.len() == b.len(),
            i <= a.len(),
            exprs_view(a@).len() == a.len(),
            exprs_view(b@).len() == b.len(),
            forall|j: int| 0 <= j < i ==> #[trigger] exprs_view(a@)[j] == exprs_view(b@)[j],
            forall|j: int| 0 <= j < a.len() ==> #[trigger] exprs_view(a@)[j] == a@[j]@,
            forall|j: int| 0 <= j < b.len() ==> #[trigger] exprs_view(b@)[j] == b@[j]@,
        decreases a.len() - i,
    {
        assert(decreases_to!(*a => a@[i as int]));
        if !expr_info_eq(&a[i], &b[i]) {
            assert(exprs_view(a@)[i as int] != exprs_view(b@)[i as int]);
            return false;
        }
        i = i + 1;
    }
    assert(exprs_view(a@) =~= exprs_view(b@));
    true
}

fn stmt_eq(a: &Stmt, b: &Stmt) -> (r: bool)
    ensures
        r == (a@ == b@),
    decreases *a,
{
    match (a, b) {
        (Stmt::Expr { expr: x }, Stmt::Expr { expr: y }) => expr_info_eq(x, y),
        (Stmt::Print { expr: x }, Stmt::Print { expr: y }) => expr_info_eq(x, y),
        (
            Stmt::Var { line: l1, name: n1, initializer: i1 },
            Stmt::Var { line: l2, name: n2, initializer: i2 },
        ) => {
            *l1 == *l2 && *n1 == *n2 && match (i1, i2) {
                (Some(x), Some(y)) => expr_info_eq(x, y),
                (None, None) => true,
                _ => false,
            }
        },
        (Stmt::Block { statements: s1 }, Stmt::Block { statements: s2 }) => stmt_list_eq(s1, s2),
        (
            Stmt::If { condition: c1, then_branch: t1, else_branch: e1 },
            Stmt::If { condition: c2, then_branch: t2, else_branch: e2 },
        ) => {
            expr_info_eq(c1, c2) && stmt_eq(t1, t2) && match (e1, e2) {
                (Some(x), Some(y)) => stmt_eq(x, y),
                (None, None) => true,
                _ => false,
            }
        },
        (Stmt::While { condition: c1, stmt: b1 }, Stmt::While { condition: c2, stmt: b2 }) => {
            expr_info_eq(c1, c2) && stmt_eq(b1, b2)
        },
        (
            Stmt::Function { line: l1, name: n1, params: p1, body: b1 },
            Stmt::Function { line: l2, name: n2, params: p2, body: b2 },
        ) => { *l1 == *l2 && *n1 == *n2 && params_eq(p1, p2) && stmt_list_eq(b1, b2) },
        (Stmt::Return { line: l1, value: v1 }, Stmt::Return { line: l2, value: v2 }) => {
            *l1 == *l2 && match (v1, v2) {
                (Some(x), Some(y)) => expr_info_eq(x, y),
                (None, None) => true,
                _ => false,
            }
        },
        _ => false,
    }
}

/// Whether two parameter lists are the same (lines included).
pub fn params_eq(a: &Vec<(u32, String)>, b: &Vec<(u32, String)>) -> (r: bool)
    ensures
        r == (a@.map_values(|p: (u32, String)| param_view(p)) == b@.map_values(
            |p: (u32, String)| param_view(p),
        )),
{
    if a.len() != b.len() {
        assert(a@.map_values(|p: (u32, String)| param_view(p)).len() != b@.map_values(
            |p: (u32, String)| param_view(p),
        ).len());
        return false;
    }
    let mut i: usize = 0;
    while i < a.len()
        invariant
            a.len() == b.len(),
            i <= a.len(),
            forall|j: int| 0 <= j < i ==> param_view(#[trigger] a@[j]) == param_view(b@[j]),
        decreases a.len() - i,
    {
        if a[i].0 != b[i].0 || !(a[i].1 == b[i].1) {
            assert(a@.map_values(|p: (u32, String)| param_view(p))[i as int] != b@.map_values(
                |p: (u32, String)| param_view(p),
            )[i as int]);
            return false;
        }
        i = i + 1;
    }
    assert(a@.map_values(|p: (u32, String)| param_view(p)) =~= b@.map_values(
        |p: (u32, String)| param_view(p),
    ));
    true
}

/// Whether two statement lists are the same trees.
pub fn stmt_list_eq(a: &Vec<Stmt>, b: &Vec<Stmt>) -> (r: bool)
    ensures
        r == (stmts_view(a@) == stmts_view(b@)),
    decreases *a,
{
    proof {
        lemma_stmts_view(a@);
        lemma_stmts_view(b@);
    }
    if a.len() != b.len() {
        return false;
    }
    let mut i: usize = 0;
    while i < a.len()
        invariant
            a.len() == b.len(),
            i <= a.len(),
            stmts_view(a@).len() == a.len(),
            stmts_view(b@).len() == b.len(),
            forall|j: int| 0 <= j < i ==> #[trigger] stmts_view(a@)[j] == stmts_view(b@)[j],
            forall|j: int| 0 <= j < a.len() ==> #[trigger] stmts_view(a@)[j] == a@[j]@,
            forall|j: int| 0 <= j < b.len() ==> #[trigger] stmts_view(b@)[j] == b@[j]@,
        decreases a.len() - i,
    {
        assert(decreases_to!(*a => a@[i as int]));
        if !stmt_eq(&a[i], &b[i]) {
            assert(stmts_view(a@)[i as int] != stmts_view(b@)[i as int]);
            return false;
        }
        i = i + 1;
    }
    assert(stmts_view(a@) =~= stmts_view(b@));
    true
}

/// How a binary operator is written in Lox.
pub open spec fn op_symbol(op: BinaryOp) -> Seq<char> {
    match op {
        BinaryOp::Equals => "=="@,
        BinaryOp::NotEquals => "!="@,
        BinaryOp::Less => "<"@,
        BinaryOp::LessEquals => "<="@,
        BinaryOp::Greater => ">"@,
        BinaryOp::GreaterEquals => ">="@,
        BinaryOp::Plus => "+"@,
        BinaryOp::Minus => "-"@,
        BinaryOp::Multiply => "*"@,
        BinaryOp::Divide => "/"@,
        BinaryOp::Or => "or"@,
        BinaryOp::And => "and"@,
    }
}

/// Each operator token stands for the operator it spells, and no two
/// tokens stand for one operator: `<` is less-than, `>=` greater-or-equal,
/// and so on; `!` is logical not and `-` negation.
pub proof fn law_operators_spelled(k: TokenKind, k2: TokenKind)
    ensures
        binary_op_of(k) matches Some(op) ==> kind_lexeme(k) == op_symbol(op),
        binary_op_of(k) is Some && binary_op_of(k) == binary_op_of(k2) ==> k == k2,
        unary_op_of(k) is Some && unary_op_of(k) == unary_op_of(k2) ==> k == k2,
        unary_op_of(k) == Some(UnaryOp::Not) <==> k == TokenKind::Bang,
        unary_op_of(k) == Some(UnaryOp::Negative) <==> k == TokenKind::Minus,
        k == TokenKind::Bang ==> kind_lexeme(k) == "!"@,
        k == TokenKind::Minus ==> kind_lexeme(k) == "-"@,
{
}

} // verus!
