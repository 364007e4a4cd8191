use vstd::prelude::*;

use std::rc::Rc;

use crate::ast::{
    binary_op_of, exprs_view, node, unary_op_of, BinaryOp, Expr, ExprInfo, ExprInfoView,
    ExprView, Literal, LiteralView, Stmt, StmtView, UnaryOp,
};
use crate::errors::{error_location, ErrorView, InterpreterError};
use crate::scanner::models::{Token, TokenInfo, TokenInfoView, TokenKind};
use crate::scanner::tokens_view;

verus! {

// ---------------------------------------------------------------------------
// The grammar, as spec functions over the tokens. Each takes the parser's
// state and gives the state after it and what it parsed, or the error.
// ---------------------------------------------------------------------------

/// The parser's state as plain values: the next token, the last node id
/// handed out, the errors reported so far and whether any was.
#[verifier::ext_equal]
pub struct PState {
    pub pos: int,
    pub id: int,
    pub reports: Seq<ErrorView>,
    pub had_errors: bool,
}

pub type Toks = Seq<TokenInfoView>;

/// Token sequences the parser works on: they end with `Eof`.
pub open spec fn wf_tokens(t: Toks) -> bool {
    &&& t.len() > 0
    &&& t.last().token.kind == TokenKind::Eof
}

/// Whether the parser stands at the end of the input.
pub open spec fn at_end(t: Toks, pos: int) -> bool {
    !(0 <= pos < t.len() - 1) || t[pos].token.kind == TokenKind::Eof
}

/// Whether the next token is of kind `k` (never at the end).
pub open spec fn check(t: Toks, st: PState, k: TokenKind) -> bool {
    !at_end(t, st.pos) && t[st.pos].token.kind == k
}

/// The state after reading one token (none at the end).
pub open spec fn adv(t: Toks, st: PState) -> PState {
    if at_end(t, st.pos) {
        st
    } else {
        PState { pos: st.pos + 1, ..st }
    }
}

/// Whether the next token is of one of the kinds `ks`.
pub open spec fn accept(t: Toks, st: PState, ks: Seq<TokenKind>) -> bool {
    !at_end(t, st.pos) && ks.contains(t[st.pos].token.kind)
}

/// Whether the parser went from `st` to `st1` without moving backwards or
/// past the last token. (Always so; the definitions test it so that they
/// visibly terminate.)
pub open spec fn forward(t: Toks, st: PState, st1: PState) -> bool {
    st.pos <= st1.pos < t.len()
}

/// The state with a fresh node id.
pub open spec fn fresh(st: PState) -> PState {
    PState { id: st.id + 1, ..st }
}

/// A parse error at the next token.
pub open spec fn perr(t: Toks, st: PState, message: Seq<char>) -> ErrorView {
    perr_at(st.pos, t[st.pos], message)
}

pub open spec fn perr_at(pos: int, token: TokenInfoView, message: Seq<char>) -> ErrorView {
    ErrorView::Parser {
        line: token.line,
        pos: pos as usize,
        location: error_location(token.token),
        message,
    }
}

/// The state with one more error reported.
pub open spec fn report(st: PState, e: ErrorView) -> PState {
    PState { reports: st.reports.push(e), had_errors: true, ..st }
}

/// Reads a token of kind `k`, or fails with `message` at the next token.
pub open spec fn p_consume(t: Toks, st: PState, k: TokenKind, message: Seq<char>) -> (
    PState,
    Result<TokenInfoView, ErrorView>,
) {
    if check(t, st, k) {
        (adv(t, st), Ok(t[st.pos]))
    } else {
        (st, Err(perr(t, st, message)))
    }
}

/// The levels of binary operators, loosest first.
#[derive(Clone, Copy, PartialEq, Eq, Structural)]
pub enum Level {
    Or,
    And,
    Equality,
    Comparison,
    Term,
    Factor,
}

pub open spec fn level_rank(l: Level) -> int {
    match l {
        Level::Or => 36,
        Level::And => 34,
        Level::Equality => 32,
        Level::Comparison => 30,
        Level::Term => 28,
        Level::Factor => 26,
    }
}

/// The operator tokens of each level.
pub open spec fn level_ops(l: Level) -> Seq<TokenKind> {
    match l {
        Level::Or => seq![TokenKind::Or],
        Level::And => seq![TokenKind::And],
        Level::Equality => seq![TokenKind::BangEqual, TokenKind::EqualEqual],
        Level::Comparison => seq![
            TokenKind::Greater,
            TokenKind::GreaterEqual,
            TokenKind::Less,
            TokenKind::LessEqual,
        ],
        Level::Term => seq![TokenKind::Minus, TokenKind::Plus],
        Level::Factor => seq![TokenKind::Star, TokenKind::Slash],
    }
}

pub type PExpr = (PState, Result<ExprInfoView, ErrorView>);

pub type PStmt = (PState, Result<StmtView, ErrorView>);

#[verifier::opaque]
pub open spec fn p_expression(t: Toks, st: PState) -> PExpr
    decreases t.len() - st.pos, 40int,
{
    p_assignment(t, st)
}

#[verifier::opaque]
pub open spec fn p_assignment(t: Toks, st: PState) -> PExpr
    decreases t.len() - st.pos, 38int,
{
    let (st1, r) = p_binary(t, st, Level::Or);
    match r {
        Err(e) => (st1, Err(e)),
        Ok(expr) => if accept(t, st1, seq![TokenKind::Equal]) && forward(t, st, st1) {
            let st2 = adv(t, st1);
            let equals_token = t[st2.pos - 1];
            let (st3, rv) = p_assignment(t, st2);
            match rv {
                Err(e) => (st3, Err(e)),
                Ok(value) => match *expr.expr {
                    ExprView::Variable(name) => (
                        fresh(st3),
                        Ok(
                            node(
                                (st3.id + 1) as usize,
                                ExprView::Assignment(name, value),
                                expr.line,
                            ),
                        ),
                    ),
                    _ => (st3, Err(perr_at(st3.pos, equals_token, "Invalid assignment target."@))),
                },
            }
        } else {
            (st1, Ok(expr))
        },
    }
}

/// The first operand of a level.
#[verifier::opaque]
pub open spec fn p_operand(t: Toks, st: PState, l: Level) -> PExpr
    decreases t.len() - st.pos, level_rank(l) - 1,
{
    match l {
        Level::Or => p_binary(t, st, Level::And),
        Level::And => p_binary(t, st, Level::Equality),
        Level::Equality => p_binary(t, st, Level::Comparison),
        Level::Comparison => p_binary(t, st, Level::Term),
        Level::Term => p_binary(t, st, Level::Factor),
        Level::Factor => p_unary(t, st),
    }
}

/// The right operand after an operator of a level: an operand of the next
/// tighter level, so that each level groups to the left.
pub open spec fn p_right(t: Toks, st: PState, l: Level) -> PExpr
    decreases t.len() - st.pos, 50int,
{
    match l {
        Level::Or => p_binary(t, st, Level::And),
        Level::And => p_binary(t, st, Level::Equality),
        Level::Equality => p_binary(t, st, Level::Comparison),
        Level::Comparison => p_binary(t, st, Level::Term),
        Level::Term => p_binary(t, st, Level::Factor),
        Level::Factor => p_unary(t, st),
    }
}

/// A level: an operand followed by any number of operator-operand pairs,
/// grouped to the left.
#[verifier::opaque]
pub open spec fn p_binary(t: Toks, st: PState, l: Level) -> PExpr
    decreases t.len() - st.pos, level_rank(l),
{
    let (st1, r) = p_operand(t, st, l);
    match r {
        Err(e) => (st1, Err(e)),
        Ok(left) => if forward(t, st, st1) {
            p_binary_loop(t, st1, l, left)
        } else {
            (st1, Ok(left))
        },
    }
}

#[verifier::opaque]
pub open spec fn p_binary_loop(t: Toks, st: PState, l: Level, left: ExprInfoView) -> PExpr
    decreases t.len() - st.pos, level_rank(l) - 2,
{
    if accept(t, st, level_ops(l)) {
        let st1 = adv(t, st);
        let operator = t[st1.pos - 1];
        let (st2, r) = p_right(t, st1, l);
        match r {
            Err(e) => (st2, Err(e)),
            Ok(right) => {
                let st3 = fresh(st2);
                match binary_op_of(operator.token.kind) {
                    Some(op) => if forward(t, st1, st2) {
                        p_binary_loop(
                            t,
                            st3,
                            l,
                            node(st3.id as usize, ExprView::Binary(op, left, right), operator.line),
                        )
                    } else {
                        (st3, Ok(left))
                    },
                    None => (
                        st3,
                        Err(
                            perr_at(
                                st2.pos,
                                operator,
                                "'"@ + operator.token.lexeme() + "' is not a binary operator"@,
                            ),
                        ),
                    ),
                }
            },
        }
    } else {
        (st, Ok(left))
    }
}

#[verifier::opaque]
pub open spec fn p_unary(t: Toks, st: PState) -> PExpr
    decreases t.len() - st.pos, 24int,
{
    if accept(t, st, seq![TokenKind::Bang, TokenKind::Minus]) {
        let st1 = adv(t, st);
        let operator = t[st1.pos - 1];
        let (st2, r) = p_unary(t, st1);
        match r {
            Err(e) => (st2, Err(e)),
            Ok(arg) => {
                let st3 = fresh(st2);
                match unary_op_of(operator.token.kind) {
                    Some(op) => (
                        st3,
                        Ok(node(st3.id as usize, ExprView::Unary(op, arg), operator.line)),
                    ),
                    None => (
                        st3,
                        Err(
                            perr_at(
                                st1.pos,
                                operator,
                                "'"@ + operator.token.lexeme() + "' is not an unary operator"@,
                            ),
                        ),
                    ),
                }
            },
        }
    } else {
        p_call(t, st)
    }
}

#[verifier::opaque]
pub open spec fn p_call(t: Toks, st: PState) -> PExpr
    decreases t.len() - st.pos, 22int,
{
    let (st1, r) = p_primary(t, st);
    match r {
        Err(e) => (st1, Err(e)),
        Ok(e) => if forward(t, st, st1) {
            p_call_loop(t, st1, e)
        } else {
            (st1, Ok(e))
        },
    }
}

#[verifier::opaque]
pub open spec fn p_call_loop(t: Toks, st: PState, callee: ExprInfoView) -> PExpr
    decreases t.len() - st.pos, 21int,
{
    if accept(t, st, seq![TokenKind::LeftParen]) {
        let st1 = adv(t, st);
        let (st2, r) = p_finish_call(t, st1, callee);
        match r {
            Err(e) => (st2, Err(e)),
            Ok(e) => if forward(t, st1, st2) {
                p_call_loop(t, st2, e)
            } else {
                (st2, Ok(e))
            },
        }
    } else {
        (st, Ok(callee))
    }
}

#[verifier::opaque]
pub open spec fn p_finish_call(t: Toks, st: PState, callee: ExprInfoView) -> PExpr
    decreases t.len() - st.pos, 50int,
{
    let (st1, r) = if !check(t, st, TokenKind::RightParen) {
        p_args(t, st, Seq::empty())
    } else {
        (st, Ok(Seq::empty()))
    };
    match r {
        Err(e) => (st1, Err(e)),
        Ok(args) => {
            let (st2, rp) = p_consume(t, st1, TokenKind::RightParen, "Expect ')' after arguments."@);
            match rp {
                Err(e) => (st2, Err(e)),
                Ok(paren) => {
                    let st3 = fresh(st2);
                    (st3, Ok(node(st3.id as usize, ExprView::Call(callee, args), paren.line)))
                },
            }
        },
    }
}

/// The arguments of a call, each followed by a comma except the last.
#[verifier::opaque]
pub open spec fn p_args(t: Toks, st: PState, args: Seq<ExprInfoView>) -> (
    PState,
    Result<Seq<ExprInfoView>, ErrorView>,
)
    decreases t.len() - st.pos, 49int,
{
    let st0 = if args.len() >= 255 {
        report(st, perr(t, st, "Can't have more than 255 arguments."@))
    } else {
        st
    };
    let (st1, r) = p_expression(t, st0);
    match r {
        Err(e) => (st1, Err(e)),
        Ok(arg) => if accept(t, st1, seq![TokenKind::Comma]) && forward(t, st, st1) {
            p_args(t, adv(t, st1), args.push(arg))
        } else {
            (st1, Ok(args.push(arg)))
        },
    }
}

/// A literal, a name, or an expression in parentheses. A name's node takes
/// the line of the name itself, so that an undefined variable is reported
/// where it is written. A literal's node takes the line of the token after
/// it, and a grouping's node the line of the first token inside its
/// parentheses.
#[verifier::opaque]
pub open spec fn p_primary(t: Toks, st: PState) -> PExpr
    decreases t.len() - st.pos, 20int,
{
    if accept(t, st, seq![TokenKind::False]) {
        let st1 = fresh(adv(t, st));
        (st1, Ok(node(st1.id as usize, ExprView::Literal(LiteralView::Boolean(false)), t[st1.pos].line)))
    } else if accept(t, st, seq![TokenKind::True]) {
        let st1 = fresh(adv(t, st));
        (st1, Ok(node(st1.id as usize, ExprView::Literal(LiteralView::Boolean(true)), t[st1.pos].line)))
    } else if accept(t, st, seq![TokenKind::Nil]) {
        let st1 = fresh(adv(t, st));
        (st1, Ok(node(st1.id as usize, ExprView::Nil, t[st1.pos].line)))
    } else if t[st.pos].token.kind == TokenKind::StrLiteral {
        let st1 = fresh(adv(t, st));
        (
            st1,
            Ok(
                node(
                    st1.id as usize,
                    ExprView::Literal(LiteralView::Str(t[st.pos].token.value)),
                    t[st1.pos].line,
                ),
            ),
        )
    } else if t[st.pos].token.kind == TokenKind::NumLiteral {
        let st1 = fresh(adv(t, st));
        (
            st1,
            Ok(
                node(
                    st1.id as usize,
                    ExprView::Literal(LiteralView::Num(t[st.pos].token.text)),
                    t[st1.pos].line,
                ),
            ),
        )
    } else if t[st.pos].token.kind == TokenKind::Identifier {
        let st1 = fresh(adv(t, st));
        (st1, Ok(node(st1.id as usize, ExprView::Variable(t[st.pos].token.text), t[st.pos].line)))
    } else if accept(t, st, seq![TokenKind::LeftParen]) {
        let st1 = adv(t, st);
        let grouping_start_line = t[st1.pos].line;
        let (st2, r) = p_expression(t, st1);
        match r {
            Err(e) => (st2, Err(e)),
            Ok(e) => {
                let (st3, rp) = p_consume(
                    t,
                    st2,
                    TokenKind::RightParen,
                    "Expect ')' after expression."@,
                );
                match rp {
                    Err(err) => (st3, Err(err)),
                    Ok(_) => {
                        let st4 = fresh(st3);
                        (st4, Ok(node(st4.id as usize, ExprView::Grouping(e), grouping_start_line)))
                    },
                }
            },
        }
    } else {
        (st, Err(perr(t, st, "Expect expression."@)))
    }
}


#[verifier::opaque]
pub open spec fn p_declaration(t: Toks, st: PState) -> PStmt
    decreases t.len() - st.pos, 68int,
{
    if accept(t, st, seq![TokenKind::Var]) {
        p_var_declaration(t, adv(t, st))
    } else if accept(t, st, seq![TokenKind::Fun]) {
        p_function(t, adv(t, st), "function"@)
    } else {
        p_statement(t, st)
    }
}

#[verifier::opaque]
pub open spec fn p_var_declaration(t: Toks, st: PState) -> PStmt
    decreases t.len() - st.pos, 65int,
{
    let (st1, rn) = p_consume(t, st, TokenKind::Identifier, "Expect variable name."@);
    match rn {
        Err(e) => (st1, Err(e)),
        Ok(name_token) => {
            let name = name_token.token.lexeme();
            let (st2, ri) = if accept(t, st1, seq![TokenKind::Equal]) {
                match p_expression(t, adv(t, st1)) {
                    (st2, Ok(e)) => (st2, Ok(Some(e))),
                    (st2, Err(e)) => (st2, Err(e)),
                }
            } else {
                (st1, Ok(None))
            };
            match ri {
                Err(e) => (st2, Err(e)),
                Ok(initializer) => {
                    let (st3, rs) = p_consume(
                        t,
                        st2,
                        TokenKind::Semicolon,
                        "Expect ';' after variable declaration."@,
                    );
                    match rs {
                        Err(e) => (st3, Err(e)),
                        Ok(_) => (st3, Ok(StmtView::Var(name_token.line, name, initializer))),
                    }
                },
            }
        },
    }
}

/// A function declaration after `fun`; `kind` names it in messages.
#[verifier::opaque]
pub open spec fn p_function(t: Toks, st: PState, kind: Seq<char>) -> PStmt
    decreases t.len() - st.pos, 65int,
{
    let (st1, rn) = p_consume(t, st, TokenKind::Identifier, "Expect "@ + kind + " name"@);
    match rn {
        Err(e) => (st1, Err(e)),
        Ok(name) => {
            let (st2, rl) = p_consume(
                t,
                st1,
                TokenKind::LeftParen,
                "Expect '(' after "@ + kind + " name"@,
            );
            match rl {
                Err(e) => (st2, Err(e)),
                Ok(_) => {
                    let (st3, rp) = if !check(t, st2, TokenKind::RightParen) {
                        p_params(t, st2, Seq::empty())
                    } else {
                        (st2, Ok(Seq::empty()))
                    };
                    match rp {
                        Err(e) => (st3, Err(e)),
                        Ok(params) => {
                            let (st4, rr) = p_consume(
                                t,
                                st3,
                                TokenKind::RightParen,
                                "Expect ')' after parameters."@,
                            );
                            match rr {
                                Err(e) => (st4, Err(e)),
                                Ok(_) => {
                                    let (st5, rb) = p_consume(
                                        t,
                                        st4,
                                        TokenKind::LeftBrace,
                                        "Expect '{' before "@ + kind + " body."@,
                                    );
                                    match rb {
                                        Err(e) => (st5, Err(e)),
                                        Ok(_) => if forward(t, st, st5) && st5.pos > st.pos {
                                            match p_block(t, st5) {
                                                (st6, Err(e)) => (st6, Err(e)),
                                                (st6, Ok(body)) => (
                                                    st6,
                                                    Ok(
                                                        StmtView::Function(
                                                            name.line,
                                                            name.token.lexeme(),
                                                            params.map_values(
                                                                |p: TokenInfoView|
                                                                    (p.line, p.token.lexeme()),
                                                            ),
                                                            body,
                                                        ),
                                                    ),
                                                ),
                                            }
                                        } else {
                                            (st5, Ok(StmtView::Block(Seq::empty())))
                                        },
                                    }
                                },
                            }
                        },
                    }
                },
            }
        },
    }
}

/// The parameter names of a function, each followed by a comma except the last.
#[verifier::opaque]
pub open spec fn p_params(t: Toks, st: PState, params: Seq<TokenInfoView>) -> (
    PState,
    Result<Seq<TokenInfoView>, ErrorView>,
)
    decreases t.len() - st.pos, 64int,
{
    let st0 = if params.len() >= 255 {
        report(st, perr(t, st, "Can't have more than 255 parameters."@))
    } else {
        st
    };
    let (st1, r) = p_consume(t, st0, TokenKind::Identifier, "Expect parameter name"@);
    match r {
        Err(e) => (st1, Err(e)),
        Ok(param) => if accept(t, st1, seq![TokenKind::Comma]) && forward(t, st, st1) {
            p_params(t, adv(t, st1), params.push(param))
        } else {
            (st1, Ok(params.push(param)))
        },
    }
}

#[verifier::opaque]
pub open spec fn p_statement(t: Toks, st: PState) -> PStmt
    decreases t.len() - st.pos, 67int,
{
    if accept(t, st, seq![TokenKind::Print]) {
        p_print_statement(t, adv(t, st))
    } else if accept(t, st, seq![TokenKind::LeftBrace]) {
        match p_block(t, adv(t, st)) {
            (st1, Ok(b)) => (st1, Ok(StmtView::Block(b))),
            (st1, Err(e)) => (st1, Err(e)),
        }
    } else if accept(t, st, seq![TokenKind::If]) {
        p_if_statement(t, adv(t, st))
    } else if accept(t, st, seq![TokenKind::While]) {
        p_while_statement(t, adv(t, st))
    } else if accept(t, st, seq![TokenKind::For]) {
        p_for_statement(t, adv(t, st))
    } else if accept(t, st, seq![TokenKind::Return]) {
        p_return_statement(t, adv(t, st))
    } else {
        p_expr_statement(t, st)
    }
}

/// An expression followed by a semicolon; `k` builds the statement.
#[verifier::opaque]
pub open spec fn p_terminated(t: Toks, st: PState, message: Seq<char>) -> PExpr
    decreases t.len() - st.pos, 45int,
{
    let (st1, r) = p_expression(t, st);
    match r {
        Err(e) => (st1, Err(e)),
        Ok(expr) => {
            let (st2, rs) = p_consume(t, st1, TokenKind::Semicolon, message);
            match rs {
                Err(e) => (st2, Err(e)),
                Ok(_) => (st2, Ok(expr)),
            }
        },
    }
}

#[verifier::opaque]
pub open spec fn p_print_statement(t: Toks, st: PState) -> PStmt
    decreases t.len() - st.pos, 65int,
{
    match p_terminated(t, st, "Expect ';' after value."@) {
        (st1, Ok(expr)) => (st1, Ok(StmtView::Print(expr))),
        (st1, Err(e)) => (st1, Err(e)),
    }
}

#[verifier::opaque]
pub open spec fn p_expr_statement(t: Toks, st: PState) -> PStmt
    decreases t.len() - st.pos, 66int,
{
    match p_terminated(t, st, "Expect ';' after expression."@) {
        (st1, Ok(expr)) => (st1, Ok(StmtView::Expr(expr))),
        (st1, Err(e)) => (st1, Err(e)),
    }
}

/// The declarations of a block, after its `{`, and its `}`.
#[verifier::opaque]
pub open spec fn p_block(t: Toks, st: PState) -> (PState, Result<Seq<StmtView>, ErrorView>)
    decreases t.len() - st.pos, 70int,
{
    match p_block_items(t, st, Seq::empty()) {
        (st1, Err(e)) => (st1, Err(e)),
        (st1, Ok(stmts)) => {
            let (st2, r) = p_consume(t, st1, TokenKind::RightBrace, "Expect '}' after block."@);
            match r {
                Err(e) => (st2, Err(e)),
                Ok(_) => (st2, Ok(stmts)),
            }
        },
    }
}

#[verifier::opaque]
pub open spec fn p_block_items(t: Toks, st: PState, stmts: Seq<StmtView>) -> (
    PState,
    Result<Seq<StmtView>, ErrorView>,
)
    decreases t.len() - st.pos, 69int,
{
    if !check(t, st, TokenKind::RightBrace) && !at_end(t, st.pos) {
        match p_declaration(t, st) {
            (st1, Err(e)) => (st1, Err(e)),
            (st1, Ok(s)) => if forward(t, st, st1) && st1.pos > st.pos {
                p_block_items(t, st1, stmts.push(s))
            } else {
                (st1, Ok(stmts.push(s)))
            },
        }
    } else {
        (st, Ok(stmts))
    }
}

/// A condition in parentheses after `if` or `while`, with the messages for
/// a missing `(` and `)`.
#[verifier::opaque]
pub open spec fn p_condition(t: Toks, st: PState, open_message: Seq<char>, close_message: Seq<char>) -> PExpr
    decreases t.len() - st.pos, 60int,
{
    let (st1, rl) = p_consume(t, st, TokenKind::LeftParen, open_message);
    match rl {
        Err(e) => (st1, Err(e)),
        Ok(_) => {
            let (st2, r) = p_expression(t, st1);
            match r {
                Err(e) => (st2, Err(e)),
                Ok(cond) => {
                    let (st3, rr) = p_consume(
                        t,
                        st2,
                        TokenKind::RightParen,
                        close_message,
                    );
                    match rr {
                        Err(e) => (st3, Err(e)),
                        Ok(_) => (st3, Ok(cond)),
                    }
                },
            }
        },
    }
}

#[verifier::opaque]
pub open spec fn p_if_statement(t: Toks, st: PState) -> PStmt
    decreases t.len() - st.pos, 65int,
{
    match p_condition(t, st, "Expect '(' after 'if'."@, "Expect ')' after if condition."@) {
        (st1, Err(e)) => (st1, Err(e)),
        (st1, Ok(cond)) => if forward(t, st, st1) && st1.pos > st.pos {
            match p_statement(t, st1) {
                (st2, Err(e)) => (st2, Err(e)),
                (st2, Ok(then_branch)) => if accept(t, st2, seq![TokenKind::Else]) && forward(
                    t,
                    st,
                    st2,
                ) {
                    match p_statement(t, adv(t, st2)) {
                        (st3, Err(e)) => (st3, Err(e)),
                        (st3, Ok(else_branch)) => (
                            st3,
                            Ok(
                                StmtView::If(
                                    cond,
                                    Box::new(then_branch),
                                    Some(Box::new(else_branch)),
                                ),
                            ),
                        ),
                    }
                } else {
                    (st2, Ok(StmtView::If(cond, Box::new(then_branch), None)))
                },
            }
        } else {
            (st1, Ok(StmtView::Block(Seq::empty())))
        },
    }
}

#[verifier::opaque]
pub open spec fn p_while_statement(t: Toks, st: PState) -> PStmt
    decreases t.len() - st.pos, 65int,
{
    match p_condition(t, st, "Expect '(' after 'while'."@, "Expect ')' after while condition."@) {
        (st1, Err(e)) => (st1, Err(e)),
        (st1, Ok(cond)) => if forward(t, st, st1) && st1.pos > st.pos {
            match p_statement(t, st1) {
                (st2, Err(e)) => (st2, Err(e)),
                (st2, Ok(body)) => (st2, Ok(StmtView::While(cond, Box::new(body)))),
            }
        } else {
            (st1, Ok(StmtView::Block(Seq::empty())))
        },
    }
}

/// The `for` statement after `for`, turned into a `while` loop: the
/// initializer runs first, the increment after the body, and a missing
/// condition stands for `true`.
#[verifier::opaque]
pub open spec fn p_for_statement(t: Toks, st: PState) -> PStmt
    decreases t.len() - st.pos, 65int,
{
    let (st1, rl) = p_consume(t, st, TokenKind::LeftParen, "Expect '(' after 'for'."@);
    match rl {
        Err(e) => (st1, Err(e)),
        Ok(_) => {
            let (st2, ri) = if accept(t, st1, seq![TokenKind::Semicolon]) {
                (adv(t, st1), Ok(None))
            } else if accept(t, st1, seq![TokenKind::Var]) {
                match p_var_declaration(t, adv(t, st1)) {
                    (st2, Ok(s)) => (st2, Ok(Some(s))),
                    (st2, Err(e)) => (st2, Err(e)),
                }
            } else {
                match p_expr_statement(t, st1) {
                    (st2, Ok(s)) => (st2, Ok(Some(s))),
                    (st2, Err(e)) => (st2, Err(e)),
                }
            };
            match ri {
                Err(e) => (st2, Err(e)),
                Ok(initializer) => if forward(t, st, st2) && st2.pos > st.pos {
                    p_for_rest(t, st2, initializer)
                } else {
                    (st2, Ok(StmtView::Block(Seq::empty())))
                },
            }
        },
    }
}

/// The condition, increment and body of a `for` statement.
#[verifier::opaque]
pub open spec fn p_for_rest(t: Toks, st: PState, initializer: Option<StmtView>) -> PStmt
    decreases t.len() - st.pos, 64int,
{
    let (st1, rc) = if !check(t, st, TokenKind::Semicolon) {
        match p_expression(t, st) {
            (st1, Ok(e)) => (st1, Ok(Some(e))),
            (st1, Err(e)) => (st1, Err(e)),
        }
    } else {
        (st, Ok(None))
    };
    match rc {
        Err(e) => (st1, Err(e)),
        Ok(condition) => {
            let condition_line = t[st1.pos].line;
            let (st2, rs) = p_consume(
                t,
                st1,
                TokenKind::Semicolon,
                "Expect ';' after loop condition."@,
            );
            match rs {
                Err(e) => (st2, Err(e)),
                Ok(_) => {
                    let (st3, ri) = if !check(t, st2, TokenKind::RightParen) && forward(t, st, st2) {
                        match p_expression(t, st2) {
                            (st3, Ok(e)) => (st3, Ok(Some(e))),
                            (st3, Err(e)) => (st3, Err(e)),
                        }
                    } else {
                        (st2, Ok(None))
                    };
                    match ri {
                        Err(e) => (st3, Err(e)),
                        Ok(increment) => {
                            let (st4, rr) = p_consume(
                                t,
                                st3,
                                TokenKind::RightParen,
                                "Expect ')' after for clauses."@,
                            );
                            match rr {
                                Err(e) => (st4, Err(e)),
                                Ok(_) => if forward(t, st, st4) && st4.pos > st.pos {
                                    match p_statement(t, st4) {
                                        (st5, Err(e)) => (st5, Err(e)),
                                        (st5, Ok(body)) => {
                                            let st6 = fresh(st5);
                                            (
                                                st6,
                                                Ok(
                                                    desugar_for(
                                                        initializer,
                                                        condition,
                                                        increment,
                                                        body,
                                                        st6.id as usize,
                                                        condition_line,
                                                    ),
                                                ),
                                            )
                                        },
                                    }
                                } else {
                                    (st4, Ok(StmtView::Block(Seq::empty())))
                                },
                            }
                        },
                    }
                },
            }
        },
    }
}

/// The `while` loop a `for` statement stands for.
pub open spec fn desugar_for(
    initializer: Option<StmtView>,
    condition: Option<ExprInfoView>,
    increment: Option<ExprInfoView>,
    body: StmtView,
    id: usize,
    condition_line: u32,
) -> StmtView {
    let body = match increment {
        Some(incr) => StmtView::Block(seq![body, StmtView::Expr(incr)]),
        None => body,
    };
    let condition = match condition {
        Some(c) => c,
        None => node(id, ExprView::Literal(LiteralView::Boolean(true)), condition_line),
    };
    let body = StmtView::While(condition, Box::new(body));
    match initializer {
        Some(init) => StmtView::Block(seq![init, body]),
        None => body,
    }
}

#[verifier::opaque]
pub open spec fn p_return_statement(t: Toks, st: PState) -> PStmt
    decreases t.len() - st.pos, 65int,
{
    let line = t[st.pos - 1].line;
    let (st1, rv) = if !check(t, st, TokenKind::Semicolon) {
        match p_expression(t, st) {
            (st1, Ok(e)) => (st1, Ok(Some(e))),
            (st1, Err(e)) => (st1, Err(e)),
        }
    } else {
        (st, Ok(None))
    };
    match rv {
        Err(e) => (st1, Err(e)),
        Ok(value) => {
            let (st2, rs) = p_consume(
                t,
                st1,
                TokenKind::Semicolon,
                "Expect ';' after return value."@,
            );
            match rs {
                Err(e) => (st2, Err(e)),
                Ok(_) => (st2, Ok(StmtView::Return(line, value))),
            }
        },
    }
}

/// The kinds of token that start a statement.
pub open spec fn stmt_start_kinds() -> Seq<TokenKind> {
    seq![
        TokenKind::Class,
        TokenKind::Fun,
        TokenKind::Var,
        TokenKind::For,
        TokenKind::If,
        TokenKind::While,
        TokenKind::Print,
        TokenKind::Return,
    ]
}

/// After an error: skips tokens until just after a `;` or just before a
/// token that starts a statement, or the end.
#[verifier::opaque]
pub open spec fn p_synchronize(t: Toks, st: PState) -> PState {
    let st1 = adv(t, st);
    sync_loop(t, st1, t[st1.pos - 1])
}

pub open spec fn sync_loop(t: Toks, st: PState, token: TokenInfoView) -> PState
    decreases t.len() - st.pos,
{
    if at_end(t, st.pos) {
        st
    } else if token.token.kind == TokenKind::Semicolon {
        st
    } else if stmt_start_kinds().contains(t[st.pos].token.kind) {
        st
    } else {
        let st1 = adv(t, st);
        sync_loop(t, st1, t[st1.pos - 1])
    }
}

/// The declarations of a program: each error is reported and skipped past.
#[verifier::opaque]
pub open spec fn p_program(t: Toks, st: PState, stmts: Seq<StmtView>) -> (PState, Seq<StmtView>)
    decreases t.len() - st.pos,
{
    if at_end(t, st.pos) {
        (st, stmts)
    } else {
        match p_declaration(t, st) {
            (st1, Ok(s)) => if forward(t, st, st1) && st1.pos > st.pos {
                p_program(t, st1, stmts.push(s))
            } else {
                (st1, stmts.push(s))
            },
            (st1, Err(e)) => {
                let st2 = p_synchronize(t, report(st1, e));
                if forward(t, st, st2) && st2.pos > st.pos {
                    p_program(t, st2, stmts)
                } else {
                    (st2, stmts)
                }
            },
        }
    }
}

/// What parsing the tokens `t` gives, from a parser whose last node id is
/// `id`: the statements, or nothing if an error was reported; and the
/// parser's state afterwards.
pub open spec fn spec_parse(t: Toks, id: int) -> (PState, Option<Seq<StmtView>>) {
    let (st, stmts) = p_program(
        t,
        PState { pos: 0, id, reports: Seq::empty(), had_errors: false },
        Seq::empty(),
    );
    (st, if st.had_errors { None } else { Some(stmts) })
}


// ---------------------------------------------------------------------------
// The parser.
// ---------------------------------------------------------------------------

/// A recursive-descent parser for Lox. The errors it meets are kept, in the
/// order met, for the caller to report.
pub struct Parser {
    pos: usize,
    had_errors: bool,
    expr_node_id: usize,
    reports: Vec<InterpreterError>,
}

impl View for Parser {
    type V = PState;

    closed spec fn view(&self) -> PState {
        PState {
            pos: self.pos as int,
            id: self.expr_node_id as int,
            reports: self.reports@.map_values(|e: InterpreterError| e@),
            had_errors: self.had_errors,
        }
    }
}

/// A parse result as plain values.
pub open spec fn ev(r: Result<ExprInfo, InterpreterError>) -> Result<ExprInfoView, ErrorView> {
    match r {
        Ok(e) => Ok(e@),
        Err(e) => Err(e@),
    }
}

pub open spec fn sv(r: Result<Stmt, InterpreterError>) -> Result<StmtView, ErrorView> {
    match r {
        Ok(s) => Ok(s@),
        Err(e) => Err(e@),
    }
}

pub open spec fn opt_ev(o: Option<ExprInfo>) -> Option<ExprInfoView> {
    match o {
        Some(e) => Some(e@),
        None => None,
    }
}

pub open spec fn opt_sv(o: Option<Stmt>) -> Option<StmtView> {
    match o {
        Some(s) => Some(s@),
        None => None,
    }
}

pub open spec fn tv(tokens: &[TokenInfo]) -> Toks {
    tokens_view(tokens@)
}

/// The parser stays inside the tokens, and its node ids cannot run out
/// before its tokens do.
pub open spec fn fits(t: Toks, st: PState) -> bool {
    &&& wf_tokens(t)
    &&& t.len() <= usize::MAX
    &&& 0 <= st.pos < t.len()
    &&& 0 <= st.id
    &&& st.id + (t.len() - st.pos) < usize::MAX
}

/// From `s0` to `s1` the parser moved forward, and handed out no more node
/// ids than it read tokens.
pub open spec fn steps(t: Toks, s0: PState, s1: PState) -> bool {
    &&& s0.pos <= s1.pos
    &&& s1.id + (t.len() - s1.pos) <= s0.id + (t.len() - s0.pos)
    &&& s0.id <= s1.id
}


pub open spec fn stmts_v(s: Seq<Stmt>) -> Seq<StmtView> {
    crate::ast::stmts_view(s)
}

/// The token kind `a`, in a `Vec`.
fn kinds1(a: TokenKind) -> (v: Vec<TokenKind>)
    ensures
        v@ == seq![a],
{
    let mut v: Vec<TokenKind> = Vec::new();
    v.push(a);
    assert(v@ =~= seq![a]);
    v
}

/// The token kinds `a`, `b`, in a `Vec`.
fn kinds2(a: TokenKind, b: TokenKind) -> (v: Vec<TokenKind>)
    ensures
        v@ == seq![a, b],
{
    let mut v: Vec<TokenKind> = Vec::new();
    v.push(a);
    v.push(b);
    assert(v@ =~= seq![a, b]);
    v
}

/// The token kinds `a`, `b`, `c`, `d`, in a `Vec`.
fn kinds4(a: TokenKind, b: TokenKind, c: TokenKind, d: TokenKind) -> (v: Vec<TokenKind>)
    ensures
        v@ == seq![a, b, c, d],
{
    let mut v: Vec<TokenKind> = Vec::new();
    v.push(a);
    v.push(b);
    v.push(c);
    v.push(d);
    assert(v@ =~= seq![a, b, c, d]);
    v
}

impl Parser {
    #[verifier::spinoff_prover]
    pub fn new() -> (r: Self)
        ensures
            r@ == (PState { pos: 0, id: 0, reports: Seq::empty(), had_errors: false }),
    {
        let r = Parser { pos: 0, had_errors: false, expr_node_id: 0, reports: Vec::new() };
        assert(r@.reports =~= Seq::<ErrorView>::empty());
        r
    }

    /// The errors reported by the last parse, in order.
    #[verifier::spinoff_prover]
    pub fn reports(&self) -> (r: &Vec<InterpreterError>)
        ensures
            r@.map_values(|e: InterpreterError| e@) == self@.reports,
    {
        &self.reports
    }

    /// Parses a program. Each error is kept in `reports` and skipped past;
    /// the statements come back only if there was none.
    #[verifier::spinoff_prover]
    #[verifier::loop_isolation(false)]
    pub fn parse(&mut self, tokens: &[TokenInfo]) -> (r: Option<Vec<Stmt>>)
        requires
            wf_tokens(tv(tokens)),
            old(self)@.id >= 0,
            old(self)@.id + tokens@.len() < usize::MAX,
        ensures
            final(self)@ == spec_parse(tv(tokens), old(self)@.id).0,
            final(self)@.id < usize::MAX,
            match r {
                Some(stmts) => spec_parse(tv(tokens), old(self)@.id).1 == Some(stmts_v(stmts@)),
                None => spec_parse(tv(tokens), old(self)@.id).1 is None,
            },
    {
        proof {
            reveal(p_program);
            reveal(p_synchronize);
        }
        self.pos = 0;
        self.had_errors = false;
        self.reports = Vec::new();
        assert(self@.reports =~= Seq::<ErrorView>::empty());

        let mut statements: Vec<Stmt> = Vec::new();
        assert(stmts_v(statements@) =~= Seq::<StmtView>::empty());
        let ghost t = tv(tokens);
        let ghost start = self@;
        while !self.is_at_end(tokens)
            invariant
                t == tv(tokens),
                fits(t, self@),
                p_program(t, start, Seq::empty()) == p_program(t, self@, stmts_v(statements@)),
            decreases t.len() - self.pos,
        {
            let ghost before = self@;
            let ghost before_stmts = statements@;
            let result = self.declaration(tokens);

            match result {
                Ok(res) => {
                    statements.push(res);
                    proof {
                        crate::ast::lemma_stmts_view(statements@);
                        crate::ast::lemma_stmts_view(before_stmts);
                        assert(stmts_v(statements@) =~= stmts_v(before_stmts).push(res@));
                    }
                },
                Err(e) => {
                    let ghost st1 = self@;
                    self.had_errors = true;
                    self.reports.push(e);
                    assert(self@.reports =~= st1.reports.push(e@));
                    assert(self@ =~= report(st1, e@));
                    self.synchronize(tokens);
                },
            };
        }

        if self.had_errors {
            None
        } else {
            Some(statements)
        }
    }

    #[verifier::spinoff_prover]
    fn declaration(&mut self, tokens: &[TokenInfo]) -> (r: Result<Stmt, InterpreterError>)
        requires
            fits(tv(tokens), old(self)@),
        ensures
            fits(tv(tokens), final(self)@),
            steps(tv(tokens), old(self)@, final(self)@),
            r is Ok ==> final(self)@.pos > old(self)@.pos,
            (final(self)@, sv(r)) == p_declaration(tv(tokens), old(self)@),
        decreases tokens@.len() - old(self)@.pos, 68int,
    {
        proof {
            reveal(p_declaration);
        }
        let has_advanced = self.advance_on_match(tokens, &kinds1(TokenKind::Var));
        if has_advanced {
            return self.var_declaration(tokens);
        }

        let has_advanced = self.advance_on_match(tokens, &kinds1(TokenKind::Fun));
        if has_advanced {
            return self.function(tokens, "function");
        }

        self.statement(tokens)
    }

    // -- the helpers every rule uses --

    #[verifier::spinoff_prover]
    fn is_at_end(&self, tokens: &[TokenInfo]) -> (r: bool)
        requires
            fits(tv(tokens), self@),
        ensures
            r == at_end(tv(tokens), self@.pos),
    {
        proof {
            broadcast use vstd::seq_lib::group_seq_properties;
        }
        self.peek(tokens).token.kind() == TokenKind::Eof
    }

    #[verifier::spinoff_prover]
    fn peek<'a>(&self, tokens: &'a [TokenInfo]) -> (r: &'a TokenInfo)
        requires
            fits(tv(tokens), self@),
        ensures
            r@ == tv(tokens)[self@.pos],
    {
        &tokens[self.pos]
    }

    #[verifier::spinoff_prover]
    fn previous<'a>(&self, tokens: &'a [TokenInfo]) -> (r: &'a TokenInfo)
        requires
            fits(tv(tokens), self@),
            self@.pos >= 1,
        ensures
            r@ == tv(tokens)[self@.pos - 1],
    {
        &tokens[self.pos - 1]
    }

    #[verifier::spinoff_prover]
    fn check(&self, tokens: &[TokenInfo], tpe: TokenKind) -> (r: bool)
        requires
            fits(tv(tokens), self@),
        ensures
            r == check(tv(tokens), self@, tpe),
    {
        if self.is_at_end(tokens) {
            false
        } else {
            self.peek(tokens).token.kind() == tpe
        }
    }

    #[verifier::spinoff_prover]
    fn advance<'a>(&mut self, tokens: &'a [TokenInfo]) -> (r: &'a TokenInfo)
        requires
            fits(tv(tokens), old(self)@),
            !at_end(tv(tokens), old(self)@.pos) || old(self)@.pos >= 1,
        ensures
            final(self)@ == adv(tv(tokens), old(self)@),
            fits(tv(tokens), final(self)@),
            r@ == tv(tokens)[final(self)@.pos - 1],
    {
        if !self.is_at_end(tokens) {
            self.pos = self.pos + 1;
        }
        self.previous(tokens)
    }

    #[verifier::spinoff_prover]
    #[verifier::loop_isolation(false)]
    fn advance_on_match(&mut self, tokens: &[TokenInfo], types: &Vec<TokenKind>) -> (r: bool)
        requires
            fits(tv(tokens), old(self)@),
        ensures
            r == accept(tv(tokens), old(self)@, types@),
            final(self)@ == if r {
                adv(tv(tokens), old(self)@)
            } else {
                old(self)@
            },
            fits(tv(tokens), final(self)@),
    {
        let mut i: usize = 0;
        while i < types.len()
            invariant
                fits(tv(tokens), self@),
                self@ == old(self)@,
                i <= types@.len(),
                forall|j: int| 0 <= j < i ==> !check(tv(tokens), self@, #[trigger] types@[j]),
            decreases types.len() - i,
        {
            if self.check(tokens, types[i]) {
                self.advance(tokens);
                return true;
            }
            i = i + 1;
        }
        false
    }

    #[verifier::spinoff_prover]
    fn consume<'a>(&mut self, tokens: &'a [TokenInfo], tpe: TokenKind, error_message: String) -> (r:
        Result<&'a TokenInfo, InterpreterError>)
        requires
            fits(tv(tokens), old(self)@),
        ensures
            fits(tv(tokens), final(self)@),
            (final(self)@, match r {
                Ok(t) => Ok(t@),
                Err(e) => Err(e@),
            }) == p_consume(tv(tokens), old(self)@, tpe, error_message@),
    {
        if self.check(tokens, tpe) {
            Ok(self.advance(tokens))
        } else {
            Err(InterpreterError::parser_error(self.pos, self.peek(tokens), error_message))
        }
    }

    #[verifier::spinoff_prover]
    fn next_expr_id(&mut self) -> (r: usize)
        requires
            old(self).expr_node_id < usize::MAX,
        ensures
            final(self)@ == fresh(old(self)@),
            r == final(self)@.id,
    {
        self.expr_node_id = self.expr_node_id + 1;
        self.expr_node_id
    }

    // -- error recovery --

    #[verifier::spinoff_prover]
    #[verifier::loop_isolation(false)]
    fn synchronize(&mut self, tokens: &[TokenInfo])
        requires
            fits(tv(tokens), old(self)@),
            !at_end(tv(tokens), old(self)@.pos) || old(self)@.pos >= 1,
        ensures
            fits(tv(tokens), final(self)@),
            final(self)@ == p_synchronize(tv(tokens), old(self)@),
            final(self)@.pos >= old(self)@.pos,
            !at_end(tv(tokens), old(self)@.pos) ==> final(self)@.pos > old(self)@.pos,
            final(self)@.id == old(self)@.id,
    {
        proof {
            reveal(p_synchronize);
            reveal(sync_loop);
        }
        let mut token = self.advance(tokens);

        while !self.is_at_end(tokens)
            invariant
                fits(tv(tokens), self@),
                self@.pos >= 1,
                token@ == tv(tokens)[self@.pos - 1],
                p_synchronize(tv(tokens), old(self)@) == sync_loop(tv(tokens), self@, token@),
                old(self)@.pos <= self@.pos,
                !at_end(tv(tokens), old(self)@.pos) ==> self@.pos > old(self)@.pos,
                self@.id == old(self)@.id,
            decreases tokens@.len() - self.pos,
        {
            if token.token.kind() == TokenKind::Semicolon {
                return;
            }
            let k = self.peek(tokens).token.kind();
            if k == TokenKind::Class || k == TokenKind::Fun || k == TokenKind::Var || k
                == TokenKind::For || k == TokenKind::If || k == TokenKind::While || k
                == TokenKind::Print || k == TokenKind::Return {
                return;
            }
            token = self.advance(tokens);
        }
    }

    // -- statements --

    #[verifier::spinoff_prover]
    fn var_declaration(&mut self, tokens: &[TokenInfo]) -> (r: Result<Stmt, InterpreterError>)
        requires
            fits(tv(tokens), old(self)@),
        ensures
            fits(tv(tokens), final(self)@),
            steps(tv(tokens), old(self)@, final(self)@),
            r is Ok ==> final(self)@.pos > old(self)@.pos,
            (final(self)@, sv(r)) == p_var_declaration(tv(tokens), old(self)@),
        decreases tokens@.len() - old(self)@.pos, 65int,
    {
        proof {
            reveal(p_var_declaration);
        }
        let name_token = self.consume(
            tokens,
            TokenKind::Identifier,
            String::from_str("Expect variable name."),
        )?;
        let name = String::from_str(name_token.token.lexeme());

        let has_advanced = self.advance_on_match(tokens, &kinds1(TokenKind::Equal));

        let var_stmt = if has_advanced {
            let expr_result = self.expression(tokens)?;

            Stmt::Var { line: name_token.line, name, initializer: Some(expr_result) }
        } else {
            Stmt::Var { line: name_token.line, name, initializer: None }
        };

        self.consume(
            tokens,
            TokenKind::Semicolon,
            String::from_str("Expect ';' after variable declaration."),
        )?;

        Ok(var_stmt)
    }

    #[verifier::spinoff_prover]
    #[verifier::loop_isolation(false)]
    fn function(&mut self, tokens: &[TokenInfo], kind: &str) -> (r: Result<Stmt, InterpreterError>)
        requires
            fits(tv(tokens), old(self)@),
        ensures
            fits(tv(tokens), final(self)@),
            steps(tv(tokens), old(self)@, final(self)@),
            r is Ok ==> final(self)@.pos > old(self)@.pos,
            (final(self)@, sv(r)) == p_function(tv(tokens), old(self)@, kind@),
        decreases tokens@.len() - old(self)@.pos, 65int,
    {
        proof {
            reveal(p_function);
            reveal(p_params);
        }
        let ghost t = tv(tokens);
        let ghost s0 = self@;
        let mut message = String::from_str("Expect ");
        message.append(kind);
        message.append(" name");
        let name = self.consume(tokens, TokenKind::Identifier, message)?;

        let mut message = String::from_str("Expect '(' after ");
        message.append(kind);
        message.append(" name");
        self.consume(tokens, TokenKind::LeftParen, message)?;

        let ghost s2 = self@;
        let mut params: Vec<&TokenInfo> = Vec::new();
        assert(params@.map_values(|p: &TokenInfo| p@) =~= Seq::<TokenInfoView>::empty());

        if !self.check(tokens, TokenKind::RightParen) {
            let mut more = true;
            while more
                invariant
                    t == tv(tokens),
                    fits(t, self@),
                    steps(t, s2, self@),
                    s2.pos > s0.pos,
                    more ==> p_params(t, s2, Seq::empty()) == p_params(
                        t,
                        self@,
                        params@.map_values(|p: &TokenInfo| p@),
                    ),
                    !more ==> p_params(t, s2, Seq::empty()) == (
                        self@,
                        Ok::<Seq<TokenInfoView>, ErrorView>(params@.map_values(|p: &TokenInfo| p@)),
                    ),
                    !more ==> self@.pos > s2.pos,
                decreases tokens@.len() - self.pos, if more { 1int } else { 0int },
            {
                let ghost head = self@;
                let ghost pv = params@.map_values(|p: &TokenInfo| p@);
                if params.len() >= 255 {
                    let warning = InterpreterError::parser_error(
                        self.pos,
                        self.peek(tokens),
                        String::from_str("Can't have more than 255 parameters."),
                    );
                    self.reports.push(warning);
                    self.had_errors = true;
                    assert(self@ =~= report(head, warning@));
                }
                let param = self.consume(
                    tokens,
                    TokenKind::Identifier,
                    String::from_str("Expect parameter name"),
                )?;
                params.push(param);
                assert(params@.map_values(|p: &TokenInfo| p@) =~= pv.push(param@));

                more = self.advance_on_match(tokens, &kinds1(TokenKind::Comma));
            }
        }
        let ghost s3 = self@;
        self.consume(tokens, TokenKind::RightParen, String::from_str("Expect ')' after parameters."))?;

        let mut message = String::from_str("Expect '{' before ");
        message.append(kind);
        message.append(" body.");
        self.consume(tokens, TokenKind::LeftBrace, message)?;

        let body = self.block(tokens)?;

        let mut param_names: Vec<(u32, String)> = Vec::new();
        let mut i: usize = 0;
        while i < params.len()
            invariant
                i <= params@.len(),
                param_names@.len() == i,
                forall|j: int|
                    0 <= j < i ==> #[trigger] crate::ast::param_view(param_names@[j]) == (
                        params@[j]@.line,
                        params@[j]@.token.lexeme(),
                    ),
            decreases params.len() - i,
        {
            param_names.push((params[i].line, String::from_str(params[i].token.lexeme())));
            i = i + 1;
        }
        assert(param_names@.map_values(|p: (u32, String)| crate::ast::param_view(p))
            =~= params@.map_values(|p: &TokenInfo| p@).map_values(
            |p: TokenInfoView| (p.line, p.token.lexeme()),
        ));

        Ok(
            Stmt::Function {
                line: name.line,
                name: String::from_str(name.token.lexeme()),
                params: param_names,
                body: Rc::new(body),
            },
        )
    }

    #[verifier::spinoff_prover]
    fn statement(&mut self, tokens: &[TokenInfo]) -> (r: Result<Stmt, InterpreterError>)
        requires
            fits(tv(tokens), old(self)@),
        ensures
            fits(tv(tokens), final(self)@),
            steps(tv(tokens), old(self)@, final(self)@),
            r is Ok ==> final(self)@.pos > old(self)@.pos,
            (final(self)@, sv(r)) == p_statement(tv(tokens), old(self)@),
        decreases tokens@.len() - old(self)@.pos, 67int,
    {
        proof {
            reveal(p_statement);
        }
        let has_advanced = self.advance_on_match(tokens, &kinds1(TokenKind::Print));
        if has_advanced {
            return self.print_statement(tokens);
        };

        let has_advanced = self.advance_on_match(tokens, &kinds1(TokenKind::LeftBrace));
        if has_advanced {
            return match self.block(tokens) {
                Ok(b) => Ok(Stmt::Block { statements: Rc::new(b) }),
                Err(e) => Err(e),
            };
        };

        let has_advanced = self.advance_on_match(tokens, &kinds1(TokenKind::If));
        if has_advanced {
            return self.if_statement(tokens);
        };

        let has_advanced = self.advance_on_match(tokens, &kinds1(TokenKind::While));
        if has_advanced {
            return self.while_statement(tokens);
        };

        let has_advanced = self.advance_on_match(tokens, &kinds1(TokenKind::For));
        if has_advanced {
            return self.for_statement(tokens);
        };

        let has_advanced = self.advance_on_match(tokens, &kinds1(TokenKind::Return));
        if has_advanced {
            return self.return_statement(tokens);
        };

        self.expr_statement(tokens)
    }

    #[verifier::spinoff_prover]
    fn print_statement(&mut self, tokens: &[TokenInfo]) -> (r: Result<Stmt, InterpreterError>)
        requires
            fits(tv(tokens), old(self)@),
        ensures
            fits(tv(tokens), final(self)@),
            steps(tv(tokens), old(self)@, final(self)@),
            r is Ok ==> final(self)@.pos > old(self)@.pos,
            (final(self)@, sv(r)) == p_print_statement(tv(tokens), old(self)@),
        decreases tokens@.len() - old(self)@.pos, 65int,
    {
        proof {
            reveal(p_print_statement);
            reveal(p_terminated);
        }
        let expr = self.expression(tokens)?;

        self.consume(tokens, TokenKind::Semicolon, String::from_str("Expect ';' after value."))?;

        Ok(Stmt::Print { expr })
    }

    #[verifier::spinoff_prover]
    #[verifier::loop_isolation(false)]
    fn block(&mut self, tokens: &[TokenInfo]) -> (r: Result<Vec<Stmt>, InterpreterError>)
        requires
            fits(tv(tokens), old(self)@),
        ensures
            fits(tv(tokens), final(self)@),
            steps(tv(tokens), old(self)@, final(self)@),
            r is Ok ==> final(self)@.pos > old(self)@.pos,
            (final(self)@, match r {
                Ok(b) => Ok(stmts_v(b@)),
                Err(e) => Err(e@),
            }) == p_block(tv(tokens), old(self)@),
        decreases tokens@.len() - old(self)@.pos, 70int,
    {
        proof {
            reveal(p_block);
            reveal(p_block_items);
        }
        let ghost t = tv(tokens);
        let ghost s0 = self@;
        let mut statements: Vec<Stmt> = Vec::new();
        assert(stmts_v(statements@) =~= Seq::<StmtView>::empty());

        while !self.check(tokens, TokenKind::RightBrace) && !self.is_at_end(tokens)
            invariant
                t == tv(tokens),
                fits(t, self@),
                steps(t, s0, self@),
                p_block_items(t, s0, Seq::empty()) == p_block_items(t, self@, stmts_v(statements@)),
            decreases tokens@.len() - self.pos,
        {
            let ghost before_stmts = statements@;
            let stmt_result = self.declaration(tokens)?;

            statements.push(stmt_result);
            proof {
                crate::ast::lemma_stmts_view(statements@);
                crate::ast::lemma_stmts_view(before_stmts);
                assert(stmts_v(statements@) =~= stmts_v(before_stmts).push(stmt_result@));
            }
        }

        self.consume(tokens, TokenKind::RightBrace, String::from_str("Expect '}' after block."))?;

        Ok(statements)
    }

    #[verifier::spinoff_prover]
    fn if_statement(&mut self, tokens: &[TokenInfo]) -> (r: Result<Stmt, InterpreterError>)
        requires
            fits(tv(tokens), old(self)@),
        ensures
            fits(tv(tokens), final(self)@),
            steps(tv(tokens), old(self)@, final(self)@),
            r is Ok ==> final(self)@.pos > old(self)@.pos,
            (final(self)@, sv(r)) == p_if_statement(tv(tokens), old(self)@),
        decreases tokens@.len() - old(self)@.pos, 65int,
    {
        proof {
            reveal(p_if_statement);
            reveal(p_condition);
        }
        self.consume(tokens, TokenKind::LeftParen, String::from_str("Expect '(' after 'if'."))?;

        let cond = self.expression(tokens)?;

        self.consume(
            tokens,
            TokenKind::RightParen,
            String::from_str("Expect ')' after if condition."),
        )?;

        let then_branch = self.statement(tokens)?;

        let has_advanced = self.advance_on_match(tokens, &kinds1(TokenKind::Else));

        let else_branch = if has_advanced {
            Some(self.statement(tokens)?)
        } else {
            None
        };

        Ok(
            Stmt::If {
                condition: cond,
                then_branch: Rc::new(then_branch),
                else_branch: match else_branch {
                    Some(e) => Some(Rc::new(e)),
                    None => None,
                },
            },
        )
    }

    #[verifier::spinoff_prover]
    fn while_statement(&mut self, tokens: &[TokenInfo]) -> (r: Result<Stmt, InterpreterError>)
        requires
            fits(tv(tokens), old(self)@),
        ensures
            fits(tv(tokens), final(self)@),
            steps(tv(tokens), old(self)@, final(self)@),
            r is Ok ==> final(self)@.pos > old(self)@.pos,
            (final(self)@, sv(r)) == p_while_statement(tv(tokens), old(self)@),
        decreases tokens@.len() - old(self)@.pos, 65int,
    {
        proof {
            reveal(p_while_statement);
            reveal(p_condition);
        }
        self.consume(tokens, TokenKind::LeftParen, String::from_str("Expect '(' after 'while'."))?;

        let expr = self.expression(tokens)?;

        self.consume(
            tokens,
            TokenKind::RightParen,
            String::from_str("Expect ')' after while condition."),
        )?;

        let stmt = self.statement(tokens)?;

        Ok(Stmt::While { condition: expr, stmt: Rc::new(stmt) })
    }

    #[verifier::spinoff_prover]
    fn for_statement(&mut self, tokens: &[TokenInfo]) -> (r: Result<Stmt, InterpreterError>)
        requires
            fits(tv(tokens), old(self)@),
        ensures
            fits(tv(tokens), final(self)@),
            steps(tv(tokens), old(self)@, final(self)@),
            r is Ok ==> final(self)@.pos > old(self)@.pos,
            (final(self)@, sv(r)) == p_for_statement(tv(tokens), old(self)@),
        decreases tokens@.len() - old(self)@.pos, 65int,
    {
        proof {
            reveal(p_for_statement);
            reveal(p_for_rest);
        }
        self.consume(tokens, TokenKind::LeftParen, String::from_str("Expect '(' after 'for'."))?;

        let initializer: Option<Stmt>;

        let has_advanced = self.advance_on_match(tokens, &kinds1(TokenKind::Semicolon));
        if has_advanced {
            initializer = None;
        } else {
            let has_advanced = self.advance_on_match(tokens, &kinds1(TokenKind::Var));
            if has_advanced {
                let stmt = self.var_declaration(tokens)?;

                initializer = Some(stmt);
            } else {
                let stmt = self.expr_statement(tokens)?;

                initializer = Some(stmt);
            }
        }

        self.for_clauses(tokens, initializer)
    }

    /// The condition, increment and body of a `for` statement, after its
    /// initializer.
    #[verifier::spinoff_prover]
    fn for_clauses(&mut self, tokens: &[TokenInfo], initializer: Option<Stmt>) -> (r: Result<
        Stmt,
        InterpreterError,
    >)
        requires
            fits(tv(tokens), old(self)@),
        ensures
            fits(tv(tokens), final(self)@),
            steps(tv(tokens), old(self)@, final(self)@),
            r is Ok ==> final(self)@.pos > old(self)@.pos,
            (final(self)@, sv(r)) == p_for_rest(tv(tokens), old(self)@, opt_sv(initializer)),
        decreases tokens@.len() - old(self)@.pos, 64int,
    {
        proof {
            reveal(p_for_rest);
        }
        let ghost t = tv(tokens);
        let ghost s0 = self@;
        let ghost init_v = opt_sv(initializer);
        let condition = if !self.check(tokens, TokenKind::Semicolon) {
            Some(self.expression(tokens)?)
        } else {
            None
        };
        let condition_line = self.peek(tokens).line;

        self.consume(
            tokens,
            TokenKind::Semicolon,
            String::from_str("Expect ';' after loop condition."),
        )?;

        let increment = if !self.check(tokens, TokenKind::RightParen) {
            Some(self.expression(tokens)?)
        } else {
            None
        };

        self.consume(
            tokens,
            TokenKind::RightParen,
            String::from_str("Expect ')' after for clauses."),
        )?;

        let ghost s4 = self@;
        let mut body = self.statement(tokens)?;
        let ghost s5 = self@;
        let ghost cv = opt_ev(condition);
        let ghost iv = opt_ev(increment);
        let ghost bv = body@;

        // Desugaring For Loop to While Loop
        if let Some(incr) = increment {
            let ghost b = body@;
            let pair = vec![body, Stmt::Expr { expr: incr }];
            proof {
                crate::ast::lemma_stmts_view(pair@);
                assert(stmts_v(pair@) =~= seq![b, StmtView::Expr(incr@)]);
            }
            body = Stmt::Block { statements: Rc::new(pair) };
        }
        let ghost b1 = body@;
        assert(b1 == match iv {
            Some(incr) => StmtView::Block(seq![bv, StmtView::Expr(incr)]),
            None => bv,
        });
        let default_condition = ExprInfo::new(
            self.next_expr_id(),
            Expr::Literal { value: Literal::Boolean { value: true } },
            condition_line,
        );
        let condition = match condition {
            Some(c) => c,
            None => default_condition,
        };

        let ghost c1 = condition@;
        assert(c1 == match cv {
            Some(c) => c,
            None => node(self@.id as usize, ExprView::Literal(LiteralView::Boolean(true)), condition_line),
        });
        body = Stmt::While { condition, stmt: Rc::new(body) };
        assert(body@ == StmtView::While(c1, Box::new(b1)));

        if let Some(init) = initializer {
            let ghost b = body@;
            let pair = vec![init, body];
            proof {
                crate::ast::lemma_stmts_view(pair@);
                assert(stmts_v(pair@) =~= seq![init@, b]);
            }
            body = Stmt::Block { statements: Rc::new(pair) };
        }

        assert(self@ == fresh(s5));
        assert(forward(t, s0, s4) && s4.pos > s0.pos);
        assert(body@ == desugar_for(init_v, cv, iv, bv, self@.id as usize, condition_line));
        Ok(body)
    }

    #[verifier::spinoff_prover]
    fn return_statement(&mut self, tokens: &[TokenInfo]) -> (r: Result<Stmt, InterpreterError>)
        requires
            fits(tv(tokens), old(self)@),
            old(self)@.pos >= 1,
        ensures
            fits(tv(tokens), final(self)@),
            steps(tv(tokens), old(self)@, final(self)@),
            r is Ok ==> final(self)@.pos > old(self)@.pos,
            (final(self)@, sv(r)) == p_return_statement(tv(tokens), old(self)@),
        decreases tokens@.len() - old(self)@.pos, 65int,
    {
        proof {
            reveal(p_return_statement);
        }
        let line = self.previous(tokens).line;

        let value = if !self.check(tokens, TokenKind::Semicolon) {
            let expr_result = self.expression(tokens)?;
            Some(expr_result)
        } else {
            None
        };

        self.consume(
            tokens,
            TokenKind::Semicolon,
            String::from_str("Expect ';' after return value."),
        )?;

        Ok(Stmt::Return { line, value })
    }

    #[verifier::spinoff_prover]
    fn expr_statement(&mut self, tokens: &[TokenInfo]) -> (r: Result<Stmt, InterpreterError>)
        requires
            fits(tv(tokens), old(self)@),
        ensures
            fits(tv(tokens), final(self)@),
            steps(tv(tokens), old(self)@, final(self)@),
            r is Ok ==> final(self)@.pos > old(self)@.pos,
            (final(self)@, sv(r)) == p_expr_statement(tv(tokens), old(self)@),
        decreases tokens@.len() - old(self)@.pos, 66int,
    {
        proof {
            reveal(p_expr_statement);
            reveal(p_terminated);
        }
        let expr = self.expression(tokens)?;

        self.consume(
            tokens,
            TokenKind::Semicolon,
            String::from_str("Expect ';' after expression."),
        )?;

        Ok(Stmt::Expr { expr })
    }

    // -- expressions --

    #[verifier::spinoff_prover]
    fn expression(&mut self, tokens: &[TokenInfo]) -> (r: Result<ExprInfo, InterpreterError>)
        requires
            fits(tv(tokens), old(self)@),
        ensures
            fits(tv(tokens), final(self)@),
            steps(tv(tokens), old(self)@, final(self)@),
            r is Ok ==> final(self)@.pos > old(self)@.pos,
            (final(self)@, ev(r)) == p_expression(tv(tokens), old(self)@),
        decreases tokens@.len() - old(self)@.pos, 40int,
    {
        proof {
            reveal(p_expression);
        }
        self.assignment(tokens)
    }

    #[verifier::spinoff_prover]
    fn assignment(&mut self, tokens: &[TokenInfo]) -> (r: Result<ExprInfo, InterpreterError>)
        requires
            fits(tv(tokens), old(self)@),
        ensures
            fits(tv(tokens), final(self)@),
            steps(tv(tokens), old(self)@, final(self)@),
            r is Ok ==> final(self)@.pos > old(self)@.pos,
            (final(self)@, ev(r)) == p_assignment(tv(tokens), old(self)@),
        decreases tokens@.len() - old(self)@.pos, 38int,
    {
        proof {
            reveal(p_assignment);
        }
        let expr = self.logic_or(tokens)?;

        let has_advanced = self.advance_on_match(tokens, &kinds1(TokenKind::Equal));

        if has_advanced {
            let equals_token = self.previous(tokens);
            let value = self.assignment(tokens)?;

            match &*expr.expr {
                Expr::Variable { name } => {
                    let name = String::from_str(name.as_str());
                    Ok(ExprInfo::assignment(self.next_expr_id(), name, expr.line, value))
                },
                _ => Err(
                    InterpreterError::parser_error(
                        self.pos,
                        equals_token,
                        String::from_str("Invalid assignment target."),
                    ),
                ),
            }
        } else {
            Ok(expr)
        }
    }

    #[verifier::spinoff_prover]
    fn logic_or(&mut self, tokens: &[TokenInfo]) -> (r: Result<ExprInfo, InterpreterError>)
        requires
            fits(tv(tokens), old(self)@),
        ensures
            fits(tv(tokens), final(self)@),
            steps(tv(tokens), old(self)@, final(self)@),
            r is Ok ==> final(self)@.pos > old(self)@.pos,
            (final(self)@, ev(r)) == p_binary(tv(tokens), old(self)@, Level::Or),
        decreases tokens@.len() - old(self)@.pos, 36int,
    {
        proof {
            reveal(p_binary);
            reveal(p_operand);
        }
        let expr = self.logic_and(tokens)?;
        self.binary_rest(tokens, Level::Or, expr)
    }

    #[verifier::spinoff_prover]
    fn logic_and(&mut self, tokens: &[TokenInfo]) -> (r: Result<ExprInfo, InterpreterError>)
        requires
            fits(tv(tokens), old(self)@),
        ensures
            fits(tv(tokens), final(self)@),
            steps(tv(tokens), old(self)@, final(self)@),
            r is Ok ==> final(self)@.pos > old(self)@.pos,
            (final(self)@, ev(r)) == p_binary(tv(tokens), old(self)@, Level::And),
        decreases tokens@.len() - old(self)@.pos, 34int,
    {
        proof {
            reveal(p_binary);
            reveal(p_operand);
        }
        let expr = self.equality(tokens)?;
        self.binary_rest(tokens, Level::And, expr)
    }

    #[verifier::spinoff_prover]
    fn equality(&mut self, tokens: &[TokenInfo]) -> (r: Result<ExprInfo, InterpreterError>)
        requires
            fits(tv(tokens), old(self)@),
        ensures
            fits(tv(tokens), final(self)@),
            steps(tv(tokens), old(self)@, final(self)@),
            r is Ok ==> final(self)@.pos > old(self)@.pos,
            (final(self)@, ev(r)) == p_binary(tv(tokens), old(self)@, Level::Equality),
        decreases tokens@.len() - old(self)@.pos, 32int,
    {
        proof {
            reveal(p_binary);
            reveal(p_operand);
        }
        let expr = self.comparison(tokens)?;
        self.binary_rest(tokens, Level::Equality, expr)
    }

    #[verifier::spinoff_prover]
    fn comparison(&mut self, tokens: &[TokenInfo]) -> (r: Result<ExprInfo, InterpreterError>)
        requires
            fits(tv(tokens), old(self)@),
        ensures
            fits(tv(tokens), final(self)@),
            steps(tv(tokens), old(self)@, final(self)@),
            r is Ok ==> final(self)@.pos > old(self)@.pos,
            (final(self)@, ev(r)) == p_binary(tv(tokens), old(self)@, Level::Comparison),
        decreases tokens@.len() - old(self)@.pos, 30int,
    {
        proof {
            reveal(p_binary);
            reveal(p_operand);
        }
        let expr = self.term(tokens)?;
        self.binary_rest(tokens, Level::Comparison, expr)
    }

    #[verifier::spinoff_prover]
    fn term(&mut self, tokens: &[TokenInfo]) -> (r: Result<ExprInfo, InterpreterError>)
        requires
            fits(tv(tokens), old(self)@),
        ensures
            fits(tv(tokens), final(self)@),
            steps(tv(tokens), old(self)@, final(self)@),
            r is Ok ==> final(self)@.pos > old(self)@.pos,
            (final(self)@, ev(r)) == p_binary(tv(tokens), old(self)@, Level::Term),
        decreases tokens@.len() - old(self)@.pos, 28int,
    {
        proof {
            reveal(p_binary);
            reveal(p_operand);
        }
        let expr = self.factor(tokens)?;
        self.binary_rest(tokens, Level::Term, expr)
    }

    #[verifier::spinoff_prover]
    fn factor(&mut self, tokens: &[TokenInfo]) -> (r: Result<ExprInfo, InterpreterError>)
        requires
            fits(tv(tokens), old(self)@),
        ensures
            fits(tv(tokens), final(self)@),
            steps(tv(tokens), old(self)@, final(self)@),
            r is Ok ==> final(self)@.pos > old(self)@.pos,
            (final(self)@, ev(r)) == p_binary(tv(tokens), old(self)@, Level::Factor),
        decreases tokens@.len() - old(self)@.pos, 26int,
    {
        proof {
            reveal(p_binary);
            reveal(p_operand);
        }
        let expr = self.unary(tokens)?;
        self.binary_rest(tokens, Level::Factor, expr)
    }

    /// The right operand after an operator of level `l`.
    #[verifier::spinoff_prover]
    fn right_operand(&mut self, tokens: &[TokenInfo], l: Level) -> (r: Result<
        ExprInfo,
        InterpreterError,
    >)
        requires
            fits(tv(tokens), old(self)@),
        ensures
            fits(tv(tokens), final(self)@),
            steps(tv(tokens), old(self)@, final(self)@),
            r is Ok ==> final(self)@.pos > old(self)@.pos,
            (final(self)@, ev(r)) == p_right(tv(tokens), old(self)@, l),
        decreases tokens@.len() - old(self)@.pos, 50int,
    {
        match l {
            Level::Or => self.logic_and(tokens),
            Level::And => self.equality(tokens),
            Level::Equality => self.comparison(tokens),
            Level::Comparison => self.term(tokens),
            Level::Term => self.factor(tokens),
            Level::Factor => self.unary(tokens),
        }
    }

    /// The operator-operand pairs that follow the first operand of level `l`.
    #[verifier::spinoff_prover]
    #[verifier::loop_isolation(false)]
    fn binary_rest(&mut self, tokens: &[TokenInfo], l: Level, first: ExprInfo) -> (r: Result<
        ExprInfo,
        InterpreterError,
    >)
        requires
            fits(tv(tokens), old(self)@),
        ensures
            fits(tv(tokens), final(self)@),
            steps(tv(tokens), old(self)@, final(self)@),
            (final(self)@, ev(r)) == p_binary_loop(tv(tokens), old(self)@, l, first@),
        decreases tokens@.len() - old(self)@.pos, level_rank(l) - 2,
    {
        proof {
            reveal(p_binary_loop);
        }
        let ghost t = tv(tokens);
        let ghost s0 = self@;
        let mut expr = first;
        let ops = match l {
            Level::Or => kinds1(TokenKind::Or),
            Level::And => kinds1(TokenKind::And),
            Level::Equality => kinds2(TokenKind::BangEqual, TokenKind::EqualEqual),
            Level::Comparison => kinds4(
                TokenKind::Greater,
                TokenKind::GreaterEqual,
                TokenKind::Less,
                TokenKind::LessEqual,
            ),
            Level::Term => kinds2(TokenKind::Minus, TokenKind::Plus),
            Level::Factor => kinds2(TokenKind::Star, TokenKind::Slash),
        };
        assert(ops@ =~= level_ops(l));

        loop
            invariant
                t == tv(tokens),
                fits(t, self@),
                steps(t, s0, self@),
                ops@ == level_ops(l),
                p_binary_loop(t, s0, l, first@) == p_binary_loop(t, self@, l, expr@),
            decreases tokens@.len() - self.pos,
        {
            let has_advanced = self.advance_on_match(tokens, &ops);

            if has_advanced {
                let operator = self.previous(tokens);
                let right = self.right_operand(tokens, l)?;
                expr = ExprInfo::binary(self.pos, self.next_expr_id(), expr, operator, right)?;
            } else {
                return Ok(expr);
            }
        }
    }

    #[verifier::spinoff_prover]
    fn unary(&mut self, tokens: &[TokenInfo]) -> (r: Result<ExprInfo, InterpreterError>)
        requires
            fits(tv(tokens), old(self)@),
        ensures
            fits(tv(tokens), final(self)@),
            steps(tv(tokens), old(self)@, final(self)@),
            r is Ok ==> final(self)@.pos > old(self)@.pos,
            (final(self)@, ev(r)) == p_unary(tv(tokens), old(self)@),
        decreases tokens@.len() - old(self)@.pos, 24int,
    {
        proof {
            reveal(p_unary);
        }
        let has_advanced = self.advance_on_match(tokens, &kinds2(TokenKind::Bang, TokenKind::Minus));

        if has_advanced {
            let operator = self.previous(tokens);
            let op_pos = self.pos;
            let arg = self.unary(tokens)?;

            ExprInfo::unary(op_pos, self.next_expr_id(), operator, arg)
        } else {
            self.call(tokens)
        }
    }

    #[verifier::spinoff_prover]
    #[verifier::loop_isolation(false)]
    fn call(&mut self, tokens: &[TokenInfo]) -> (r: Result<ExprInfo, InterpreterError>)
        requires
            fits(tv(tokens), old(self)@),
        ensures
            fits(tv(tokens), final(self)@),
            steps(tv(tokens), old(self)@, final(self)@),
            r is Ok ==> final(self)@.pos > old(self)@.pos,
            (final(self)@, ev(r)) == p_call(tv(tokens), old(self)@),
        decreases tokens@.len() - old(self)@.pos, 22int,
    {
        proof {
            reveal(p_call);
            reveal(p_call_loop);
        }
        let ghost t = tv(tokens);
        let ghost s0 = self@;
        let mut expr = self.primary(tokens)?;
        let ghost s1 = self@;

        loop
            invariant
                t == tv(tokens),
                fits(t, self@),
                steps(t, s0, self@),
                self@.pos > s0.pos,
                p_call(t, s0) == p_call_loop(t, self@, expr@),
            decreases tokens@.len() - self.pos,
        {
            let has_advanced = self.advance_on_match(tokens, &kinds1(TokenKind::LeftParen));

            if has_advanced {
                expr = self.finish_call(tokens, expr)?;
            } else {
                return Ok(expr);
            }
        }
    }

    #[verifier::spinoff_prover]
    #[verifier::loop_isolation(false)]
    fn finish_call(&mut self, tokens: &[TokenInfo], callee: ExprInfo) -> (r: Result<
        ExprInfo,
        InterpreterError,
    >)
        requires
            fits(tv(tokens), old(self)@),
        ensures
            fits(tv(tokens), final(self)@),
            steps(tv(tokens), old(self)@, final(self)@),
            r is Ok ==> final(self)@.pos > old(self)@.pos,
            (final(self)@, ev(r)) == p_finish_call(tv(tokens), old(self)@, callee@),
        decreases tokens@.len() - old(self)@.pos, 50int,
    {
        proof {
            reveal(p_finish_call);
            reveal(p_args);
        }
        let ghost t = tv(tokens);
        let ghost s0 = self@;
        let mut args: Vec<ExprInfo> = Vec::new();

        if !self.check(tokens, TokenKind::RightParen) {
            let mut more = true;
            while more
                invariant
                    t == tv(tokens),
                    fits(t, self@),
                    steps(t, s0, self@),
                    more ==> p_args(t, s0, Seq::empty()) == p_args(t, self@, exprs_view(args@)),
                    !more ==> p_args(t, s0, Seq::empty()) == (
                        self@,
                        Ok::<Seq<ExprInfoView>, ErrorView>(exprs_view(args@)),
                    ),
                    !more ==> self@.pos > s0.pos,
                decreases tokens@.len() - self.pos, if more { 1int } else { 0int },
            {
                let ghost head = self@;
                let ghost av = args@;
                proof {
                    crate::ast::lemma_exprs_view(av);
                    reveal(p_args);
                }
                if args.len() >= 255 {
                    let warning = InterpreterError::parser_error(
                        self.pos,
                        self.peek(tokens),
                        String::from_str("Can't have more than 255 arguments."),
                    );
                    self.reports.push(warning);
                    self.had_errors = true;
                    assert(self@ =~= report(head, warning@));
                }

                let ghost before_arg = self@;
                let arg = match self.expression(tokens) {
                    Ok(a) => a,
                    Err(e) => {
                        return Err(e);
                    },
                };
                args.push(arg);
                proof {
                    crate::ast::lemma_exprs_view(args@);
                    crate::ast::lemma_exprs_view(av);
                    assert(exprs_view(args@) =~= exprs_view(av).push(arg@));
                }

                more = self.advance_on_match(tokens, &kinds1(TokenKind::Comma));
            }
        }

        let paren = self.consume(
            tokens,
            TokenKind::RightParen,
            String::from_str("Expect ')' after arguments."),
        )?;

        Ok(ExprInfo::call(paren.line, self.next_expr_id(), callee, args))
    }

    #[verifier::spinoff_prover]
    fn primary(&mut self, tokens: &[TokenInfo]) -> (r: Result<ExprInfo, InterpreterError>)
        requires
            fits(tv(tokens), old(self)@),
        ensures
            fits(tv(tokens), final(self)@),
            steps(tv(tokens), old(self)@, final(self)@),
            r is Ok ==> final(self)@.pos > old(self)@.pos,
            (final(self)@, ev(r)) == p_primary(tv(tokens), old(self)@),
        decreases tokens@.len() - old(self)@.pos, 20int,
    {
        proof {
            reveal(p_primary);
        }
        let name_line = self.peek(tokens).line;
        let has_advanced = self.advance_on_match(tokens, &kinds1(TokenKind::False));
        if has_advanced {
            let id = self.next_expr_id();
            return Ok(
                ExprInfo::new(
                    id,
                    Expr::Literal { value: Literal::Boolean { value: false } },
                    self.peek(tokens).line,
                ),
            );
        }

        let has_advanced = self.advance_on_match(tokens, &kinds1(TokenKind::True));
        if has_advanced {
            let id = self.next_expr_id();
            return Ok(
                ExprInfo::new(
                    id,
                    Expr::Literal { value: Literal::Boolean { value: true } },
                    self.peek(tokens).line,
                ),
            );
        }

        let has_advanced = self.advance_on_match(tokens, &kinds1(TokenKind::Nil));
        if has_advanced {
            let id = self.next_expr_id();
            return Ok(ExprInfo::new(id, Expr::Nil, self.peek(tokens).line));
        }

        // string, number and identifier support
        match &self.peek(tokens).token {
            Token::StrLiteral { lexeme: _, value } => {
                self.advance(tokens);
                let id = self.next_expr_id();
                return Ok(
                    ExprInfo::new(
                        id,
                        Expr::Literal { value: Literal::Str { value: String::from_str(value.as_str()) } },
                        self.peek(tokens).line,
                    ),
                );
            },
            Token::NumLiteral { lexeme } => {
                self.advance(tokens);
                let id = self.next_expr_id();
                return Ok(
                    ExprInfo::new(
                        id,
                        Expr::Literal { value: Literal::Num { lexeme: String::from_str(lexeme.as_str()) } },
                        self.peek(tokens).line,
                    ),
                );
            },
            Token::Identifier { lexeme } => {
                self.advance(tokens);
                let id = self.next_expr_id();
                return Ok(
                    ExprInfo::new(
                        id,
                        Expr::Variable { name: String::from_str(lexeme.as_str()) },
                        name_line,
                    ),
                );
            },
            _ => {},
        }

        let has_advanced = self.advance_on_match(tokens, &kinds1(TokenKind::LeftParen));
        let grouping_start_line = self.peek(tokens).line;
        if has_advanced {
            let expr = self.expression(tokens)?;

            self.consume(
                tokens,
                TokenKind::RightParen,
                String::from_str("Expect ')' after expression."),
            )?;

            return Ok(ExprInfo::new(self.next_expr_id(), Expr::Grouping { expr }, grouping_start_line));
        }

        Err(InterpreterError::parser_error(self.pos, self.peek(tokens), String::from_str("Expect expression.")))
    }
}



// ---------------------------------------------------------------------------
// Every expression node the parser makes gets an id that no other node of
// the program has: the resolver tells variable uses apart by these ids.
// ---------------------------------------------------------------------------

/// The ids of the nodes of an expression, its own first.
pub open spec fn expr_ids(e: ExprInfoView) -> Seq<int>
    decreases e,
{
    seq![e.id as int] + match *e.expr {
        ExprView::Grouping(inner) => expr_ids(inner),
        ExprView::Literal(_) => Seq::empty(),
        ExprView::Nil => Seq::empty(),
        ExprView::Variable(_) => Seq::empty(),
        ExprView::Assignment(_, value) => expr_ids(value),
        ExprView::Unary(_, inner) => expr_ids(inner),
        ExprView::Binary(_, left, right) => expr_ids(left) + expr_ids(right),
        ExprView::Call(callee, args) => expr_ids(callee) + args_ids(args),
    }
}

/// The ids of the nodes of a list of expressions.
pub open spec fn args_ids(a: Seq<ExprInfoView>) -> Seq<int>
    decreases a,
{
    if a.len() == 0 {
        Seq::empty()
    } else {
        args_ids(a.drop_last()) + expr_ids(a.last())
    }
}

pub open spec fn opt_expr_ids(o: Option<ExprInfoView>) -> Seq<int> {
    match o {
        Some(e) => expr_ids(e),
        None => Seq::empty(),
    }
}

/// The ids of the expression nodes of a statement.
pub open spec fn stmt_ids(s: StmtView) -> Seq<int>
    decreases s,
{
    match s {
        StmtView::Expr(e) => expr_ids(e),
        StmtView::Print(e) => expr_ids(e),
        StmtView::Var(_, _, init) => match init {
            Some(e) => expr_ids(e),
            None => Seq::empty(),
        },
        StmtView::Block(list) => stmts_ids(list),
        StmtView::If(c, t, e) => expr_ids(c) + stmt_ids(*t) + match e {
            Some(b) => stmt_ids(*b),
            None => Seq::empty(),
        },
        StmtView::While(c, b) => expr_ids(c) + stmt_ids(*b),
        StmtView::Function(_, _, _, body) => stmts_ids(body),
        StmtView::Return(_, v) => match v {
            Some(e) => expr_ids(e),
            None => Seq::empty(),
        },
    }
}

/// The ids of the expression nodes of a list of statements.
pub open spec fn stmts_ids(l: Seq<StmtView>) -> Seq<int>
    decreases l,
{
    if l.len() == 0 {
        Seq::empty()
    } else {
        stmts_ids(l.drop_last()) + stmt_ids(l.last())
    }
}

pub open spec fn opt_stmt_ids(o: Option<StmtView>) -> Seq<int> {
    match o {
        Some(s) => stmt_ids(s),
        None => Seq::empty(),
    }
}

/// The ids are distinct, each above `lo` and at most `hi`.
pub open spec fn ids_in(ids: Seq<int>, lo: int, hi: int) -> bool {
    &&& forall|k: int| 0 <= k < ids.len() ==> lo < #[trigger] ids[k] <= hi
    &&& forall|i: int, j: int| 0 <= i < j < ids.len() ==> #[trigger] ids[i] != #[trigger] ids[j]
}

proof fn lemma_ids_weaken(ids: Seq<int>, lo: int, hi: int, lo2: int, hi2: int)
    requires
        ids_in(ids, lo, hi),
        lo2 <= lo,
        hi <= hi2,
    ensures
        ids_in(ids, lo2, hi2),
{
}

/// Two lists of ids from ranges that do not overlap, within (lo, hi].
proof fn lemma_ids_concat(a: Seq<int>, la: int, ha: int, b: Seq<int>, lb: int, hb: int, lo: int, hi: int)
    requires
        ids_in(a, la, ha),
        ids_in(b, lb, hb),
        ha <= lb || hb <= la,
        lo <= la,
        lo <= lb,
        ha <= hi,
        hb <= hi,
    ensures
        ids_in(a + b, lo, hi),
{
    let c = a + b;
    assert forall|k: int| 0 <= k < c.len() implies lo < #[trigger] c[k] <= hi by {
        if k < a.len() {
            assert(c[k] == a[k]);
        } else {
            assert(c[k] == b[k - a.len()]);
        }
    }
    assert forall|i: int, j: int| 0 <= i < j < c.len() implies #[trigger] c[i] != #[trigger] c[j] by {
        if j < a.len() {
            assert(c[i] == a[i] && c[j] == a[j]);
        } else if i >= a.len() {
            assert(c[i] == b[i - a.len()] && c[j] == b[j - a.len()]);
        } else {
            assert(c[i] == a[i] && c[j] == b[j - a.len()]);
        }
    }
}

/// A new id above all others, put in front.
proof fn lemma_ids_cons(x: int, a: Seq<int>, lo: int, hi: int)
    requires
        ids_in(a, lo, x - 1),
        lo < x <= hi,
    ensures
        ids_in(seq![x] + a, lo, hi),
{
    lemma_ids_concat(seq![x], x - 1, x, a, lo, x - 1, lo, hi);
}

/// What parsing an expression from `st` keeps: ids only grow, and the ids
/// of what it parsed are distinct and were handed out in between.
pub open spec fn expr_ok(st: PState, r: PExpr, lo: int) -> bool {
    &&& st.id <= r.0.id
    &&& r.0.id < usize::MAX ==> match r.1 {
        Ok(e) => ids_in(expr_ids(e), lo, r.0.id),
        Err(_) => true,
    }
}

pub open spec fn stmt_ok(st: PState, r: PStmt, lo: int) -> bool {
    &&& st.id <= r.0.id
    &&& r.0.id < usize::MAX ==> match r.1 {
        Ok(s) => ids_in(stmt_ids(s), lo, r.0.id),
        Err(_) => true,
    }
}

pub open spec fn list_ok(st: PState, r: (PState, Result<Seq<StmtView>, ErrorView>), lo: int) -> bool {
    &&& st.id <= r.0.id
    &&& r.0.id < usize::MAX ==> match r.1 {
        Ok(l) => ids_in(stmts_ids(l), lo, r.0.id),
        Err(_) => true,
    }
}


// ---------------------------------------------------------------------------
// Expressions.
// ---------------------------------------------------------------------------

proof fn lemma_expression(t: Toks, st: PState)
    requires
        0 <= st.id,
    ensures
        expr_ok(st, p_expression(t, st), st.id),
    decreases t.len() - st.pos, 40int,
{
    reveal(p_expression);
    reveal(p_assignment);
    lemma_assignment(t, st);
}

proof fn lemma_assignment(t: Toks, st: PState)
    requires
        0 <= st.id,
    ensures
        expr_ok(st, p_assignment(t, st), st.id),
    decreases t.len() - st.pos, 38int,
{
    reveal(p_assignment);
    reveal(p_binary);
    lemma_binary(t, st, Level::Or);
    let (st1, r) = p_binary(t, st, Level::Or);
    if let Ok(expr) = r {
        if accept(t, st1, seq![TokenKind::Equal]) && forward(t, st, st1) {
            let st2 = adv(t, st1);
            lemma_assignment(t, st2);
            let (st3, rv) = p_assignment(t, st2);
            if let Ok(value) = rv {
                if let ExprView::Variable(name) = *expr.expr {
                    if st3.id + 1 < usize::MAX {
                        lemma_ids_cons(st3.id + 1, expr_ids(value), st.id, st3.id + 1);
                        let n = node((st3.id + 1) as usize, ExprView::Assignment(name, value), expr.line);
                        assert(expr_ids(n) =~= seq![st3.id + 1] + expr_ids(value));
                    }
                }
            }
        }
    }
}

proof fn lemma_binary(t: Toks, st: PState, l: Level)
    requires
        0 <= st.id,
    ensures
        expr_ok(st, p_binary(t, st, l), st.id),
    decreases t.len() - st.pos, level_rank(l),
{
    reveal(p_binary);
    reveal(p_operand);
    reveal(p_binary_loop);
    lemma_operand(t, st, l);
    let (st1, r) = p_operand(t, st, l);
    if let Ok(left) = r {
        if forward(t, st, st1) {
            lemma_binary_loop(t, st1, l, left, st.id);
        }
    }
}

proof fn lemma_operand(t: Toks, st: PState, l: Level)
    requires
        0 <= st.id,
    ensures
        expr_ok(st, p_operand(t, st, l), st.id),
    decreases t.len() - st.pos, level_rank(l) - 1,
{
    reveal(p_operand);
    reveal(p_binary);
    reveal(p_unary);
    match l {
        Level::Or => lemma_binary(t, st, Level::And),
        Level::And => lemma_binary(t, st, Level::Equality),
        Level::Equality => lemma_binary(t, st, Level::Comparison),
        Level::Comparison => lemma_binary(t, st, Level::Term),
        Level::Term => lemma_binary(t, st, Level::Factor),
        Level::Factor => lemma_unary(t, st),
    }
}

proof fn lemma_right(t: Toks, st: PState, l: Level)
    requires
        0 <= st.id,
    ensures
        expr_ok(st, p_right(t, st, l), st.id),
    decreases t.len() - st.pos, 50int,
{
    reveal(p_binary);
    reveal(p_unary);
    match l {
        Level::Or => lemma_binary(t, st, Level::And),
        Level::And => lemma_binary(t, st, Level::Equality),
        Level::Equality => lemma_binary(t, st, Level::Comparison),
        Level::Comparison => lemma_binary(t, st, Level::Term),
        Level::Term => lemma_binary(t, st, Level::Factor),
        Level::Factor => lemma_unary(t, st),
    }
}

proof fn lemma_binary_loop(t: Toks, st: PState, l: Level, left: ExprInfoView, lo: int)
    requires
        0 <= lo <= st.id,
        st.id < usize::MAX ==> ids_in(expr_ids(left), lo, st.id),
    ensures
        expr_ok(st, p_binary_loop(t, st, l, left), lo),
    decreases t.len() - st.pos, level_rank(l) - 2,
{
    reveal(p_binary_loop);
    reveal(p_binary);
    if accept(t, st, level_ops(l)) {
        let st1 = adv(t, st);
        let operator = t[st1.pos - 1];
        lemma_right(t, st1, l);
        let (st2, r) = p_right(t, st1, l);
        if let Ok(right) = r {
            let st3 = fresh(st2);
            if let Some(op) = binary_op_of(operator.token.kind) {
                let n = node(st3.id as usize, ExprView::Binary(op, left, right), operator.line);
                if st3.id < usize::MAX {
                    lemma_ids_concat(
                        expr_ids(left),
                        lo,
                        st.id,
                        expr_ids(right),
                        st1.id,
                        st2.id,
                        lo,
                        st2.id,
                    );
                    lemma_ids_cons(st3.id, expr_ids(left) + expr_ids(right), lo, st3.id);
                    assert(expr_ids(n) =~= seq![st3.id] + (expr_ids(left) + expr_ids(right)));
                }
                if forward(t, st1, st2) {
                    lemma_binary_loop(t, st3, l, n, lo);
                }
            }
        }
    }
}

proof fn lemma_unary(t: Toks, st: PState)
    requires
        0 <= st.id,
    ensures
        expr_ok(st, p_unary(t, st), st.id),
    decreases t.len() - st.pos, 24int,
{
    reveal(p_unary);
    reveal(p_call);
    if accept(t, st, seq![TokenKind::Bang, TokenKind::Minus]) {
        let st1 = adv(t, st);
        let operator = t[st1.pos - 1];
        lemma_unary(t, st1);
        let (st2, r) = p_unary(t, st1);
        if let Ok(arg) = r {
            let st3 = fresh(st2);
            if let Some(op) = unary_op_of(operator.token.kind) {
                if st3.id < usize::MAX {
                    lemma_ids_cons(st3.id, expr_ids(arg), st.id, st3.id);
                    let n = node(st3.id as usize, ExprView::Unary(op, arg), operator.line);
                    assert(expr_ids(n) =~= seq![st3.id] + expr_ids(arg));
                }
            }
        }
    } else {
        lemma_call(t, st);
    }
}

proof fn lemma_call(t: Toks, st: PState)
    requires
        0 <= st.id,
    ensures
        expr_ok(st, p_call(t, st), st.id),
    decreases t.len() - st.pos, 22int,
{
    reveal(p_call);
    reveal(p_primary);
    reveal(p_call_loop);
    lemma_primary(t, st);
    let (st1, r) = p_primary(t, st);
    if let Ok(e) = r {
        if forward(t, st, st1) {
            lemma_call_loop(t, st1, e, st.id);
        }
    }
}

proof fn lemma_call_loop(t: Toks, st: PState, callee: ExprInfoView, lo: int)
    requires
        0 <= lo <= st.id,
        st.id < usize::MAX ==> ids_in(expr_ids(callee), lo, st.id),
    ensures
        expr_ok(st, p_call_loop(t, st, callee), lo),
    decreases t.len() - st.pos, 21int,
{
    reveal(p_call_loop);
    reveal(p_finish_call);
    if accept(t, st, seq![TokenKind::LeftParen]) {
        let st1 = adv(t, st);
        lemma_finish_call(t, st1, callee, lo);
        let (st2, r) = p_finish_call(t, st1, callee);
        if let Ok(e) = r {
            if forward(t, st1, st2) {
                lemma_call_loop(t, st2, e, lo);
            }
        }
    }
}

proof fn lemma_finish_call(t: Toks, st: PState, callee: ExprInfoView, lo: int)
    requires
        0 <= lo <= st.id,
        st.id < usize::MAX ==> ids_in(expr_ids(callee), lo, st.id),
    ensures
        expr_ok(st, p_finish_call(t, st, callee), lo),
    decreases t.len() - st.pos, 50int,
{
    reveal(p_finish_call);
    reveal(p_args);
    if !check(t, st, TokenKind::RightParen) {
        lemma_args(t, st, Seq::empty(), st.id);
    }
    let (st1, r) = if !check(t, st, TokenKind::RightParen) {
        p_args(t, st, Seq::empty())
    } else {
        (st, Ok(Seq::empty()))
    };
    if let Ok(args) = r {
        let (st2, rp) = p_consume(t, st1, TokenKind::RightParen, "Expect ')' after arguments."@);
        if let Ok(paren) = rp {
            let st3 = fresh(st2);
            if st3.id < usize::MAX {
                lemma_ids_concat(
                    expr_ids(callee),
                    lo,
                    st.id,
                    args_ids(args),
                    st.id,
                    st1.id,
                    lo,
                    st1.id,
                );
                lemma_ids_cons(st3.id, expr_ids(callee) + args_ids(args), lo, st3.id);
                let n = node(st3.id as usize, ExprView::Call(callee, args), paren.line);
                assert(expr_ids(n) =~= seq![st3.id] + (expr_ids(callee) + args_ids(args)));
            }
        }
    }
}

proof fn lemma_args(t: Toks, st: PState, args: Seq<ExprInfoView>, lo: int)
    requires
        0 <= lo <= st.id,
        st.id < usize::MAX ==> ids_in(args_ids(args), lo, st.id),
    ensures
        st.id <= p_args(t, st, args).0.id,
        p_args(t, st, args).0.id < usize::MAX ==> match p_args(t, st, args).1 {
            Ok(a) => ids_in(args_ids(a), lo, p_args(t, st, args).0.id),
            Err(_) => true,
        },
    decreases t.len() - st.pos, 49int,
{
    reveal(p_args);
    reveal(p_expression);
    let st0 = if args.len() >= 255 {
        report(st, crate::parser::perr(t, st, "Can't have more than 255 arguments."@))
    } else {
        st
    };
    lemma_expression(t, st0);
    let (st1, r) = p_expression(t, st0);
    if let Ok(arg) = r {
        assert(args.push(arg).drop_last() =~= args);
        if st1.id < usize::MAX {
            lemma_ids_concat(args_ids(args), lo, st.id, expr_ids(arg), st.id, st1.id, lo, st1.id);
        }
        if accept(t, st1, seq![TokenKind::Comma]) && forward(t, st, st1) {
            lemma_args(t, adv(t, st1), args.push(arg), lo);
        }
    }
}

proof fn lemma_primary(t: Toks, st: PState)
    requires
        0 <= st.id,
    ensures
        expr_ok(st, p_primary(t, st), st.id),
    decreases t.len() - st.pos, 20int,
{
    reveal(p_primary);
    reveal(p_expression);
    let r = p_primary(t, st);
    let st1 = fresh(adv(t, st));
    if accept(t, st, seq![TokenKind::False]) || accept(t, st, seq![TokenKind::True]) || accept(
        t,
        st,
        seq![TokenKind::Nil],
    ) || t[st.pos].token.kind == TokenKind::StrLiteral || t[st.pos].token.kind
        == TokenKind::NumLiteral || t[st.pos].token.kind == TokenKind::Identifier {
        assert(r.0 == st1);
        if st1.id < usize::MAX {
            let e = r.1->Ok_0;
            assert(expr_ids(e) =~= seq![st1.id]);
        }
    } else if accept(t, st, seq![TokenKind::LeftParen]) {
        let s1 = adv(t, st);
        lemma_expression(t, s1);
        let (st2, re) = p_expression(t, s1);
        if let Ok(e) = re {
            let (st3, rp) = p_consume(t, st2, TokenKind::RightParen, "Expect ')' after expression."@);
            if let Ok(_) = rp {
                let st4 = fresh(st3);
                if st4.id < usize::MAX {
                    lemma_ids_cons(st4.id, expr_ids(e), st.id, st4.id);
                    let n = node(st4.id as usize, ExprView::Grouping(e), t[s1.pos].line);
                    assert(expr_ids(n) =~= seq![st4.id] + expr_ids(e));
                }
            }
        }
    }
}




// ---------------------------------------------------------------------------
// Statements.
// ---------------------------------------------------------------------------

proof fn lemma_empty_block_ids()
    ensures
        stmt_ids(StmtView::Block(Seq::empty())) == Seq::<int>::empty(),
{
    assert(stmts_ids(Seq::<StmtView>::empty()) =~= Seq::<int>::empty());
}

proof fn lemma_declaration(t: Toks, st: PState)
    requires
        0 <= st.id,
    ensures
        stmt_ok(st, p_declaration(t, st), st.id),
    decreases t.len() - st.pos, 68int,
{
    reveal(p_declaration);
    reveal(p_var_declaration);
    reveal(p_function);
    reveal(p_statement);
    if accept(t, st, seq![TokenKind::Var]) {
        lemma_var_declaration(t, adv(t, st));
    } else if accept(t, st, seq![TokenKind::Fun]) {
        lemma_function(t, adv(t, st), "function"@);
    } else {
        lemma_statement(t, st);
    }
}

proof fn lemma_var_declaration(t: Toks, st: PState)
    requires
        0 <= st.id,
    ensures
        stmt_ok(st, p_var_declaration(t, st), st.id),
    decreases t.len() - st.pos, 65int,
{
    reveal(p_var_declaration);
    reveal(p_expression);
    let (st1, rn) = p_consume(t, st, TokenKind::Identifier, "Expect variable name."@);
    if let Ok(_) = rn {
        if accept(t, st1, seq![TokenKind::Equal]) {
            lemma_expression(t, adv(t, st1));
        }
    }
}

proof fn lemma_params_id(t: Toks, st: PState, params: Seq<TokenInfoView>)
    ensures
        p_params(t, st, params).0.id == st.id,
    decreases t.len() - st.pos, 64int,
{
    reveal(p_params);
    let st0 = if params.len() >= 255 {
        report(st, perr(t, st, "Can't have more than 255 parameters."@))
    } else {
        st
    };
    let (st1, r) = p_consume(t, st0, TokenKind::Identifier, "Expect parameter name"@);
    if let Ok(param) = r {
        if accept(t, st1, seq![TokenKind::Comma]) && forward(t, st, st1) {
            lemma_params_id(t, adv(t, st1), params.push(param));
        }
    }
}

proof fn lemma_function(t: Toks, st: PState, kind: Seq<char>)
    requires
        0 <= st.id,
    ensures
        stmt_ok(st, p_function(t, st, kind), st.id),
    decreases t.len() - st.pos, 65int,
{
    reveal(p_function);
    reveal(p_params);
    reveal(p_block);
    let (st1, rn) = p_consume(t, st, TokenKind::Identifier, "Expect "@ + kind + " name"@);
    if let Ok(_) = rn {
        let (st2, rl) = p_consume(t, st1, TokenKind::LeftParen, "Expect '(' after "@ + kind + " name"@);
        if let Ok(_) = rl {
            if !check(t, st2, TokenKind::RightParen) {
                lemma_params_id(t, st2, Seq::empty());
            }
            let (st3, rp) = if !check(t, st2, TokenKind::RightParen) {
                p_params(t, st2, Seq::empty())
            } else {
                (st2, Ok(Seq::empty()))
            };
            if let Ok(_) = rp {
                let (st4, rr) = p_consume(t, st3, TokenKind::RightParen, "Expect ')' after parameters."@);
                if let Ok(_) = rr {
                    let (st5, rb) = p_consume(
                        t,
                        st4,
                        TokenKind::LeftBrace,
                        "Expect '{' before "@ + kind + " body."@,
                    );
                    if let Ok(_) = rb {
                        assert(st5.id == st.id);
                        if forward(t, st, st5) && st5.pos > st.pos {
                            lemma_block(t, st5);
                            let (st6, rbody) = p_block(t, st5);
                            if let Ok(body) = rbody {
                                let params = rp->Ok_0;
                                let name = rn->Ok_0;
                                assert(stmt_ids(
                                    StmtView::Function(
                                        name.line,
                                        name.token.lexeme(),
                                        params.map_values(
                                            |p: TokenInfoView| (p.line, p.token.lexeme()),
                                        ),
                                        body,
                                    ),
                                ) == stmts_ids(body));
                            }
                        } else {
                            lemma_empty_block_ids();
                        }
                    }
                }
            }
        }
    }
}

proof fn lemma_statement(t: Toks, st: PState)
    requires
        0 <= st.id,
    ensures
        stmt_ok(st, p_statement(t, st), st.id),
    decreases t.len() - st.pos, 67int,
{
    reveal(p_statement);
    reveal(p_print_statement);
    reveal(p_block);
    reveal(p_if_statement);
    reveal(p_while_statement);
    reveal(p_for_statement);
    reveal(p_return_statement);
    reveal(p_expr_statement);
    if accept(t, st, seq![TokenKind::Print]) {
        lemma_print(t, adv(t, st));
    } else if accept(t, st, seq![TokenKind::LeftBrace]) {
        lemma_block(t, adv(t, st));
    } else if accept(t, st, seq![TokenKind::If]) {
        lemma_if(t, adv(t, st));
    } else if accept(t, st, seq![TokenKind::While]) {
        lemma_while(t, adv(t, st));
    } else if accept(t, st, seq![TokenKind::For]) {
        lemma_for(t, adv(t, st));
    } else if accept(t, st, seq![TokenKind::Return]) {
        lemma_return(t, adv(t, st));
    } else {
        lemma_expr_statement(t, st);
    }
}

proof fn lemma_terminated(t: Toks, st: PState, message: Seq<char>)
    requires
        0 <= st.id,
    ensures
        expr_ok(st, p_terminated(t, st, message), st.id),
    decreases t.len() - st.pos, 45int,
{
    reveal(p_terminated);
    reveal(p_expression);
    lemma_expression(t, st);
}

proof fn lemma_print(t: Toks, st: PState)
    requires
        0 <= st.id,
    ensures
        stmt_ok(st, p_print_statement(t, st), st.id),
    decreases t.len() - st.pos, 65int,
{
    reveal(p_print_statement);
    reveal(p_terminated);
    lemma_terminated(t, st, "Expect ';' after value."@);
}

proof fn lemma_expr_statement(t: Toks, st: PState)
    requires
        0 <= st.id,
    ensures
        stmt_ok(st, p_expr_statement(t, st), st.id),
    decreases t.len() - st.pos, 66int,
{
    reveal(p_expr_statement);
    reveal(p_terminated);
    lemma_terminated(t, st, "Expect ';' after expression."@);
}

proof fn lemma_block(t: Toks, st: PState)
    requires
        0 <= st.id,
    ensures
        list_ok(st, p_block(t, st), st.id),
    decreases t.len() - st.pos, 70int,
{
    reveal(p_block);
    reveal(p_block_items);
    lemma_block_items(t, st, Seq::empty(), st.id);
}

proof fn lemma_block_items(t: Toks, st: PState, stmts: Seq<StmtView>, lo: int)
    requires
        0 <= lo <= st.id,
        st.id < usize::MAX ==> ids_in(stmts_ids(stmts), lo, st.id),
    ensures
        list_ok(st, p_block_items(t, st, stmts), lo),
    decreases t.len() - st.pos, 69int,
{
    reveal(p_block_items);
    reveal(p_declaration);
    if !check(t, st, TokenKind::RightBrace) && !at_end(t, st.pos) {
        lemma_declaration(t, st);
        let (st1, r) = p_declaration(t, st);
        if let Ok(s) = r {
            assert(stmts.push(s).drop_last() =~= stmts);
            if st1.id < usize::MAX {
                lemma_ids_concat(stmts_ids(stmts), lo, st.id, stmt_ids(s), st.id, st1.id, lo, st1.id);
            }
            if forward(t, st, st1) && st1.pos > st.pos {
                lemma_block_items(t, st1, stmts.push(s), lo);
            }
        }
    }
}

proof fn lemma_condition(t: Toks, st: PState, open_message: Seq<char>, close_message: Seq<char>)
    requires
        0 <= st.id,
    ensures
        expr_ok(st, p_condition(t, st, open_message, close_message), st.id),
    decreases t.len() - st.pos, 60int,
{
    reveal(p_condition);
    reveal(p_expression);
    let (st1, rl) = p_consume(t, st, TokenKind::LeftParen, open_message);
    if let Ok(_) = rl {
        lemma_expression(t, st1);
    }
}

proof fn lemma_if(t: Toks, st: PState)
    requires
        0 <= st.id,
    ensures
        stmt_ok(st, p_if_statement(t, st), st.id),
    decreases t.len() - st.pos, 65int,
{
    reveal(p_if_statement);
    reveal(p_condition);
    reveal(p_statement);
    let om = "Expect '(' after 'if'."@;
    let cm = "Expect ')' after if condition."@;
    lemma_condition(t, st, om, cm);
    let (st1, rc) = p_condition(t, st, om, cm);
    if let Ok(cond) = rc {
        if forward(t, st, st1) && st1.pos > st.pos {
            lemma_statement(t, st1);
            let (st2, rt) = p_statement(t, st1);
            if let Ok(then_branch) = rt {
                if st2.id < usize::MAX {
                    lemma_ids_concat(
                        expr_ids(cond),
                        st.id,
                        st1.id,
                        stmt_ids(then_branch),
                        st1.id,
                        st2.id,
                        st.id,
                        st2.id,
                    );
                }
                if accept(t, st2, seq![TokenKind::Else]) && forward(t, st, st2) {
                    lemma_statement(t, adv(t, st2));
                    let (st3, re) = p_statement(t, adv(t, st2));
                    if let Ok(else_branch) = re {
                        if st3.id < usize::MAX {
                            lemma_ids_concat(
                                expr_ids(cond) + stmt_ids(then_branch),
                                st.id,
                                st2.id,
                                stmt_ids(else_branch),
                                st2.id,
                                st3.id,
                                st.id,
                                st3.id,
                            );
                            assert(stmt_ids(
                                StmtView::If(
                                    cond,
                                    Box::new(then_branch),
                                    Some(Box::new(else_branch)),
                                ),
                            ) =~= expr_ids(cond) + stmt_ids(then_branch) + stmt_ids(else_branch));
                        }
                    }
                } else {
                    assert(stmt_ids(StmtView::If(cond, Box::new(then_branch), None)) =~= expr_ids(
                        cond,
                    ) + stmt_ids(then_branch));
                }
            }
        } else {
            lemma_empty_block_ids();
        }
    }
}

proof fn lemma_while(t: Toks, st: PState)
    requires
        0 <= st.id,
    ensures
        stmt_ok(st, p_while_statement(t, st), st.id),
    decreases t.len() - st.pos, 65int,
{
    reveal(p_while_statement);
    reveal(p_condition);
    reveal(p_statement);
    let om = "Expect '(' after 'while'."@;
    let cm = "Expect ')' after while condition."@;
    lemma_condition(t, st, om, cm);
    let (st1, rc) = p_condition(t, st, om, cm);
    if let Ok(cond) = rc {
        if forward(t, st, st1) && st1.pos > st.pos {
            lemma_statement(t, st1);
            let (st2, rb) = p_statement(t, st1);
            if let Ok(body) = rb {
                if st2.id < usize::MAX {
                    lemma_ids_concat(
                        expr_ids(cond),
                        st.id,
                        st1.id,
                        stmt_ids(body),
                        st1.id,
                        st2.id,
                        st.id,
                        st2.id,
                    );
                    assert(stmt_ids(StmtView::While(cond, Box::new(body))) =~= expr_ids(cond)
                        + stmt_ids(body));
                }
            }
        } else {
            lemma_empty_block_ids();
        }
    }
}

proof fn lemma_for(t: Toks, st: PState)
    requires
        0 <= st.id,
    ensures
        stmt_ok(st, p_for_statement(t, st), st.id),
    decreases t.len() - st.pos, 65int,
{
    reveal(p_for_statement);
    reveal(p_var_declaration);
    reveal(p_expr_statement);
    reveal(p_for_rest);
    let (st1, rl) = p_consume(t, st, TokenKind::LeftParen, "Expect '(' after 'for'."@);
    if let Ok(_) = rl {
        if accept(t, st1, seq![TokenKind::Semicolon]) {
        } else if accept(t, st1, seq![TokenKind::Var]) {
            lemma_var_declaration(t, adv(t, st1));
        } else {
            lemma_expr_statement(t, st1);
        }
        let (st2, ri) = if accept(t, st1, seq![TokenKind::Semicolon]) {
            (adv(t, st1), Ok(None))
        } else if accept(t, st1, seq![TokenKind::Var]) {
            match p_var_declaration(t, adv(t, st1)) {
                (st2, Ok(s)) => (st2, Ok(Some(s))),
                (st2, Err(e)) => (st2, Err(e)),
            }
        } else {
            match p_expr_statement(t, st1) {
                (st2, Ok(s)) => (st2, Ok(Some(s))),
                (st2, Err(e)) => (st2, Err(e)),
            }
        };
        if let Ok(initializer) = ri {
            if forward(t, st, st2) && st2.pos > st.pos {
                lemma_for_rest(t, st2, initializer, st.id);
            } else {
                lemma_empty_block_ids();
            }
        }
    }
}

#[verifier::spinoff_prover]
#[verifier::rlimit(60)]
proof fn lemma_for_rest(t: Toks, st: PState, initializer: Option<StmtView>, lo: int)
    requires
        0 <= lo <= st.id,
        st.id < usize::MAX ==> ids_in(opt_stmt_ids(initializer), lo, st.id),
    ensures
        stmt_ok(st, p_for_rest(t, st, initializer), lo),
    decreases t.len() - st.pos, 64int,
{
    reveal(p_for_rest);
    reveal(p_expression);
    reveal(p_statement);
    if !check(t, st, TokenKind::Semicolon) {
        lemma_expression(t, st);
    }
    let (st1, rc) = if !check(t, st, TokenKind::Semicolon) {
        match p_expression(t, st) {
            (st1, Ok(e)) => (st1, Ok(Some(e))),
            (st1, Err(e)) => (st1, Err(e)),
        }
    } else {
        (st, Ok(None))
    };
    if let Ok(condition) = rc {
        let condition_line = t[st1.pos].line;
        let (st2, rs) = p_consume(t, st1, TokenKind::Semicolon, "Expect ';' after loop condition."@);
        if let Ok(_) = rs {
            if !check(t, st2, TokenKind::RightParen) && forward(t, st, st2) {
                lemma_expression(t, st2);
            }
            let (st3, ri) = if !check(t, st2, TokenKind::RightParen) && forward(t, st, st2) {
                match p_expression(t, st2) {
                    (st3, Ok(e)) => (st3, Ok(Some(e))),
                    (st3, Err(e)) => (st3, Err(e)),
                }
            } else {
                (st2, Ok(None))
            };
            if let Ok(increment) = ri {
                let (st4, rr) = p_consume(t, st3, TokenKind::RightParen, "Expect ')' after for clauses."@);
                if let Ok(_) = rr {
                    if !(forward(t, st, st4) && st4.pos > st.pos) {
                        lemma_empty_block_ids();
                    }
                    if forward(t, st, st4) && st4.pos > st.pos {
                        lemma_statement(t, st4);
                        let (st5, rb) = p_statement(t, st4);
                        if let Ok(body) = rb {
                            let st6 = fresh(st5);
                            if st6.id < usize::MAX {
                                lemma_desugar_ids(
                                    initializer,
                                    condition,
                                    increment,
                                    body,
                                    st6.id,
                                    condition_line,
                                    lo,
                                    st.id,
                                    st1.id,
                                    st3.id,
                                    st5.id,
                                );
                            }
                        }
                    }
                }
            }
        }
    }
}

/// The ids of a desugared `for` loop, from the ids of its parts.
proof fn lemma_desugar_ids(
    initializer: Option<StmtView>,
    condition: Option<ExprInfoView>,
    increment: Option<ExprInfoView>,
    body: StmtView,
    id: int,
    condition_line: u32,
    lo: int,
    a: int,
    b: int,
    c: int,
    d: int,
)
    requires
        0 <= lo <= a <= b <= c <= d,
        id == d + 1,
        id < usize::MAX,
        ids_in(opt_stmt_ids(initializer), lo, a),
        ids_in(opt_expr_ids(condition), a, b),
        ids_in(opt_expr_ids(increment), b, c),
        ids_in(stmt_ids(body), c, d),
    ensures
        ids_in(
            stmt_ids(desugar_for(initializer, condition, increment, body, id as usize, condition_line)),
            lo,
            id,
        ),
{
    let body2 = match increment {
        Some(incr) => StmtView::Block(seq![body, StmtView::Expr(incr)]),
        None => body,
    };
    match increment {
        Some(incr) => {
            let l = seq![body, StmtView::Expr(incr)];
            assert(l.drop_last() =~= seq![body]);
            assert(seq![body].drop_last() =~= Seq::<StmtView>::empty());
            assert(stmts_ids(Seq::<StmtView>::empty()) =~= Seq::<int>::empty());
            assert(stmts_ids(seq![body]) =~= stmt_ids(body));
            assert(l.last() == StmtView::Expr(incr));
            assert(stmt_ids(StmtView::Expr(incr)) == expr_ids(incr));
            assert(stmts_ids(l) == stmts_ids(l.drop_last()) + stmt_ids(l.last()));
            assert(stmts_ids(l) =~= stmt_ids(body) + expr_ids(incr));
            lemma_ids_concat(stmt_ids(body), c, d, expr_ids(incr), b, c, b, d);
        },
        None => {
            lemma_ids_weaken(stmt_ids(body), c, d, b, d);
        },
    }
    assert(ids_in(stmt_ids(body2), b, d));
    let cond2 = match condition {
        Some(cnd) => cnd,
        None => node(id as usize, ExprView::Literal(LiteralView::Boolean(true)), condition_line),
    };
    match condition {
        Some(cnd) => {
            lemma_ids_concat(expr_ids(cnd), a, b, stmt_ids(body2), b, d, a, id);
        },
        None => {
            assert(expr_ids(cond2) =~= seq![id]);
            lemma_ids_concat(expr_ids(cond2), d, id, stmt_ids(body2), b, d, a, id);
        },
    }
    let w = StmtView::While(cond2, Box::new(body2));
    assert(ids_in(stmt_ids(w), a, id));
    match initializer {
        Some(init) => {
            let l = seq![init, w];
            assert(l.drop_last() =~= seq![init]);
            assert(seq![init].drop_last() =~= Seq::<StmtView>::empty());
            assert(stmts_ids(Seq::<StmtView>::empty()) =~= Seq::<int>::empty());
            assert(stmts_ids(seq![init]) =~= stmt_ids(init));
            assert(stmts_ids(l) =~= stmt_ids(init) + stmt_ids(w));
            lemma_ids_concat(stmt_ids(init), lo, a, stmt_ids(w), a, id, lo, id);
        },
        None => {
            lemma_ids_weaken(stmt_ids(w), a, id, lo, id);
        },
    }
}

proof fn lemma_return(t: Toks, st: PState)
    requires
        0 <= st.id,
    ensures
        stmt_ok(st, p_return_statement(t, st), st.id),
    decreases t.len() - st.pos, 65int,
{
    reveal(p_return_statement);
    reveal(p_expression);
    if !check(t, st, TokenKind::Semicolon) {
        lemma_expression(t, st);
    }
}

proof fn lemma_sync_loop(t: Toks, st: PState, token: TokenInfoView)
    ensures
        sync_loop(t, st, token).id == st.id,
    decreases t.len() - st.pos,
{
    if !at_end(t, st.pos) && token.token.kind != TokenKind::Semicolon && !stmt_start_kinds().contains(
        t[st.pos].token.kind,
    ) {
        let st1 = adv(t, st);
        lemma_sync_loop(t, st1, t[st1.pos - 1]);
    }
}

proof fn lemma_program(t: Toks, st: PState, stmts: Seq<StmtView>, lo: int)
    requires
        0 <= lo <= st.id,
        st.id < usize::MAX ==> ids_in(stmts_ids(stmts), lo, st.id),
    ensures
        st.id <= p_program(t, st, stmts).0.id,
        p_program(t, st, stmts).0.id < usize::MAX ==> ids_in(
            stmts_ids(p_program(t, st, stmts).1),
            lo,
            p_program(t, st, stmts).0.id,
        ),
    decreases t.len() - st.pos,
{
    reveal(p_program);
    reveal(p_declaration);
    reveal(p_synchronize);
    if !at_end(t, st.pos) {
        lemma_declaration(t, st);
        let (st1, r) = p_declaration(t, st);
        match r {
            Ok(s) => {
                assert(stmts.push(s).drop_last() =~= stmts);
                if st1.id < usize::MAX {
                    lemma_ids_concat(stmts_ids(stmts), lo, st.id, stmt_ids(s), st.id, st1.id, lo, st1.id);
                }
                if forward(t, st, st1) && st1.pos > st.pos {
                    lemma_program(t, st1, stmts.push(s), lo);
                }
            },
            Err(e) => {
                let sr = report(st1, e);
                let s1 = adv(t, sr);
                lemma_sync_loop(t, s1, t[s1.pos - 1]);
                let st2 = p_synchronize(t, sr);
                if st2.id < usize::MAX {
                    lemma_ids_weaken(stmts_ids(stmts), lo, st.id, lo, st2.id);
                }
                if forward(t, st, st2) && st2.pos > st.pos {
                    lemma_program(t, st2, stmts, lo);
                }
            },
        }
    }
}

/// Every expression node of a parsed program has an id that no other node
/// of the program has, handed out after the parser's starting id and no
/// later than its last.
pub proof fn law_parse_ids_distinct(t: Toks, id: int)
    requires
        0 <= id,
        spec_parse(t, id).0.id < usize::MAX,
    ensures
        id <= spec_parse(t, id).0.id,
        spec_parse(t, id).1 matches Some(stmts) ==> ids_in(stmts_ids(stmts), id, spec_parse(t, id).0.id),
{
    lemma_program(t, PState { pos: 0, id, reports: Seq::empty(), had_errors: false }, Seq::empty(), id);
}

/// The node id counter only grows: a parse starting from id `id` ends at
/// an id no smaller.
pub proof fn law_parse_counter_grows(t: Toks, id: int)
    requires
        0 <= id,
    ensures
        id <= spec_parse(t, id).0.id,
{
    lemma_program(t, PState { pos: 0, id, reports: Seq::empty(), had_errors: false }, Seq::empty(), id);
}

/// Two parses in turn on one parser never give the same id to two nodes:
/// the ids of the second parse all come after those of the first.
pub proof fn law_parses_ids_apart(t1: Toks, t2: Toks, id: int)
    requires
        0 <= id,
        spec_parse(t2, spec_parse(t1, id).0.id).0.id < usize::MAX,
    ensures
        spec_parse(t1, id).1 matches Some(a) ==> (spec_parse(t2, spec_parse(t1, id).0.id).1 matches Some(
            b,
        ) ==> ids_in(stmts_ids(a) + stmts_ids(b), id, spec_parse(t2, spec_parse(t1, id).0.id).0.id)),
{
    let id1 = spec_parse(t1, id).0.id;
    let id2 = spec_parse(t2, id1).0.id;
    law_parse_counter_grows(t1, id);
    law_parse_counter_grows(t2, id1);
    law_parse_ids_distinct(t1, id);
    law_parse_ids_distinct(t2, id1);
    if let Some(a) = spec_parse(t1, id).1 {
        if let Some(b) = spec_parse(t2, id1).1 {
            lemma_ids_concat(stmts_ids(a), id, id1, stmts_ids(b), id1, id2, id, id2);
        }
    }
}

/// The state after `n` node ids have been handed out.
pub open spec fn fresh_n(st: PState, n: nat) -> PState
    decreases n,
{
    if n == 0 {
        st
    } else {
        fresh(fresh_n(st, (n - 1) as nat))
    }
}

/// Node ids count up by one: the `j`-th id handed out from a state is its
/// id plus `j`, so ids taken in turn are strictly increasing and never
/// repeat (from a new parser: 1, 2, 3, ...).
pub proof fn law_fresh_ids_count_up(st: PState, i: nat, j: nat)
    requires
        i < j,
    ensures
        fresh_n(st, j).id == st.id + j,
        fresh_n(st, i).id < fresh_n(st, j).id,
    decreases j,
{
    if i + 1 < j {
        law_fresh_ids_count_up(st, i, (j - 1) as nat);
    } else if i > 0 {
        law_fresh_ids_count_up(st, (i - 1) as nat, i);
    }
}

/// How loosely a binary operator binds: the rank of its level.
pub open spec fn op_rank(op: BinaryOp) -> int {
    match op {
        BinaryOp::Or => level_rank(Level::Or),
        BinaryOp::And => level_rank(Level::And),
        BinaryOp::Equals | BinaryOp::NotEquals => level_rank(Level::Equality),
        BinaryOp::Less | BinaryOp::LessEquals | BinaryOp::Greater | BinaryOp::GreaterEquals => {
            level_rank(Level::Comparison)
        },
        BinaryOp::Plus | BinaryOp::Minus => level_rank(Level::Term),
        BinaryOp::Multiply | BinaryOp::Divide => level_rank(Level::Factor),
    }
}

/// The rank of the operator at the top of an expression; below every level
/// where the top is not a binary operator.
pub open spec fn top_rank(e: ExprInfoView) -> int {
    match *e.expr {
        ExprView::Binary(op, _, _) => op_rank(op),
        _ => 0,
    }
}

/// In every chain of binary operators not broken by parentheses, an
/// operand binds at least as tightly as its operator, and a right operand
/// strictly more tightly: tighter levels group first, and operators of one
/// level group to the left.
pub open spec fn grouped(e: ExprInfoView) -> bool
    decreases e,
{
    match *e.expr {
        ExprView::Binary(op, a, b) => {
            &&& top_rank(a) <= op_rank(op)
            &&& top_rank(b) < op_rank(op)
            &&& grouped(a)
            &&& grouped(b)
        },
        _ => true,
    }
}

proof fn lemma_level_op(t: Toks, st: PState, l: Level)
    requires
        accept(t, st, level_ops(l)),
    ensures
        binary_op_of(t[st.pos].token.kind) matches Some(op) && op_rank(op) == level_rank(l),
{
    let k = t[st.pos].token.kind;
    assert(level_ops(l).contains(k));
    let i = choose|i: int| 0 <= i < level_ops(l).len() && level_ops(l)[i] == k;
    match l {
        Level::Comparison => {
            assert(i == 0 || i == 1 || i == 2 || i == 3);
        },
        Level::Equality | Level::Term | Level::Factor => {
            assert(i == 0 || i == 1);
        },
        _ => {
            assert(i == 0);
        },
    }
}

proof fn lemma_call_loop_plain(t: Toks, st: PState, callee: ExprInfoView)
    requires
        top_rank(callee) == 0,
    ensures
        p_call_loop(t, st, callee).1 matches Ok(e) ==> top_rank(e) == 0,
    decreases t.len() - st.pos, 21int,
{
    reveal(p_call_loop);
    reveal(p_finish_call);
    if accept(t, st, seq![TokenKind::LeftParen]) {
        let st1 = adv(t, st);
        let (st2, r) = p_finish_call(t, st1, callee);
        if let Ok(e) = r {
            if forward(t, st1, st2) {
                lemma_call_loop_plain(t, st2, e);
            }
        }
    }
}

proof fn lemma_primary_plain(t: Toks, st: PState)
    ensures
        p_primary(t, st).1 matches Ok(e) ==> top_rank(e) == 0,
{
    reveal(p_primary);
}

proof fn lemma_call_plain(t: Toks, st: PState)
    ensures
        p_call(t, st).1 matches Ok(e) ==> top_rank(e) == 0,
    decreases t.len() - st.pos, 22int,
{
    reveal(p_call);
    reveal(p_primary);
    reveal(p_call_loop);
    lemma_primary_plain(t, st);
    let (st1, r) = p_primary(t, st);
    if let Ok(e) = r {
        if forward(t, st, st1) {
            lemma_call_loop_plain(t, st1, e);
        }
    }
}

proof fn lemma_unary_plain(t: Toks, st: PState)
    ensures
        p_unary(t, st).1 matches Ok(e) ==> top_rank(e) == 0,
    decreases t.len() - st.pos, 24int,
{
    reveal(p_unary);
    reveal(p_call);
    if !accept(t, st, seq![TokenKind::Bang, TokenKind::Minus]) {
        lemma_call_plain(t, st);
    } else {
        lemma_unary_plain(t, adv(t, st));
    }
}

proof fn lemma_binary_grouped(t: Toks, st: PState, l: Level)
    ensures
        p_binary(t, st, l).1 matches Ok(e) ==> grouped(e) && top_rank(e) <= level_rank(l),
    decreases t.len() - st.pos, level_rank(l),
{
    reveal(p_binary);
    reveal(p_operand);
    reveal(p_binary_loop);
    lemma_operand_grouped(t, st, l);
    let (st1, r) = p_operand(t, st, l);
    if let Ok(left) = r {
        if forward(t, st, st1) {
            lemma_binary_loop_grouped(t, st1, l, left);
        }
    }
}

proof fn lemma_operand_grouped(t: Toks, st: PState, l: Level)
    ensures
        p_operand(t, st, l).1 matches Ok(e) ==> grouped(e) && top_rank(e) < level_rank(l),
    decreases t.len() - st.pos, level_rank(l) - 1,
{
    reveal(p_operand);
    reveal(p_binary);
    reveal(p_unary);
    match l {
        Level::Or => lemma_binary_grouped(t, st, Level::And),
        Level::And => lemma_binary_grouped(t, st, Level::Equality),
        Level::Equality => lemma_binary_grouped(t, st, Level::Comparison),
        Level::Comparison => lemma_binary_grouped(t, st, Level::Term),
        Level::Term => lemma_binary_grouped(t, st, Level::Factor),
        Level::Factor => {
            lemma_unary_plain(t, st);
            if let Ok(e) = p_unary(t, st).1 {
                assert(grouped(e));
            }
        },
    }
}

proof fn lemma_right_grouped(t: Toks, st: PState, l: Level)
    ensures
        p_right(t, st, l).1 matches Ok(e) ==> grouped(e) && top_rank(e) < level_rank(l),
    decreases t.len() - st.pos, 50int,
{
    reveal(p_binary);
    reveal(p_unary);
    match l {
        Level::Or => lemma_binary_grouped(t, st, Level::And),
        Level::And => lemma_binary_grouped(t, st, Level::Equality),
        Level::Equality => lemma_binary_grouped(t, st, Level::Comparison),
        Level::Comparison => lemma_binary_grouped(t, st, Level::Term),
        Level::Term => lemma_binary_grouped(t, st, Level::Factor),
        Level::Factor => {
            lemma_unary_plain(t, st);
            if let Ok(e) = p_unary(t, st).1 {
                assert(grouped(e));
            }
        },
    }
}

proof fn lemma_binary_loop_grouped(t: Toks, st: PState, l: Level, left: ExprInfoView)
    requires
        grouped(left),
        top_rank(left) <= level_rank(l),
    ensures
        p_binary_loop(t, st, l, left).1 matches Ok(e) ==> grouped(e) && top_rank(e) <= level_rank(l),
    decreases t.len() - st.pos, level_rank(l) - 2,
{
    reveal(p_binary_loop);
    reveal(p_binary);
    if accept(t, st, level_ops(l)) {
        let st1 = adv(t, st);
        let operator = t[st1.pos - 1];
        lemma_level_op(t, st, l);
        lemma_right_grouped(t, st1, l);
        let (st2, r) = p_right(t, st1, l);
        if let Ok(right) = r {
            let st3 = fresh(st2);
            if let Some(op) = binary_op_of(operator.token.kind) {
                let n = node(st3.id as usize, ExprView::Binary(op, left, right), operator.line);
                assert(grouped(n));
                if forward(t, st1, st2) {
                    lemma_binary_loop_grouped(t, st3, l, n);
                }
            }
        }
    }
}

/// Binary operators group by precedence and, within one level, to the
/// left: every expression the parser reads is `grouped`, so `1 - 2 - 3`
/// reads as `(1 - 2) - 3` and `2 * 3 - 4` as `(2 * 3) - 4`.
pub proof fn law_operators_group_left(t: Toks, st: PState)
    ensures
        p_expression(t, st).1 matches Ok(e) ==> grouped(e),
{
    reveal(p_expression);
    reveal(p_assignment);
    reveal(p_binary);
    lemma_binary_grouped(t, st, Level::Or);
    let (st1, r) = p_binary(t, st, Level::Or);
    if let Ok(expr) = r {
        if accept(t, st1, seq![TokenKind::Equal]) && forward(t, st, st1) {
            let st2 = adv(t, st1);
            let (st3, rv) = p_assignment(t, st2);
            if let Ok(value) = rv {
                if let ExprView::Variable(name) = *expr.expr {
                    let n = node((st3.id + 1) as usize, ExprView::Assignment(name, value), expr.line);
                    assert(grouped(n));
                }
            }
        }
    }
}

/// `!` reads as logical not and `-` as negation, each applied to the unary
/// expression after it, on the line of the operator; a `!` or `-` whose
/// operand reads fails only as that operand fails.
pub proof fn law_unary_operators(t: Toks, st: PState)
    ensures
        !at_end(t, st.pos) && t[st.pos].token.kind == TokenKind::Bang ==> {
            &&& p_unary(t, st).1 is Ok <==> p_unary(t, adv(t, st)).1 is Ok
            &&& p_unary(t, st).1 matches Ok(e) ==> {
                &&& *e.expr == ExprView::Unary(UnaryOp::Not, p_unary(t, adv(t, st)).1->Ok_0)
                &&& e.line == t[st.pos].line
            }
        },
        !at_end(t, st.pos) && t[st.pos].token.kind == TokenKind::Minus ==> {
            &&& p_unary(t, st).1 is Ok <==> p_unary(t, adv(t, st)).1 is Ok
            &&& p_unary(t, st).1 matches Ok(e) ==> {
                &&& *e.expr == ExprView::Unary(UnaryOp::Negative, p_unary(t, adv(t, st)).1->Ok_0)
                &&& e.line == t[st.pos].line
            }
        },
{
    reveal(p_unary);
}

} // verus!
