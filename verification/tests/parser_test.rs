use lib::ast::{BinaryOp, Expr, Literal, Stmt};
use lib::parser::Parser;
use lib::scanner::scan_tokens;

fn parse(source: &str) -> (Option<Vec<Stmt>>, Vec<String>) {
    let tokens = scan_tokens(source).unwrap();
    let mut parser = Parser::new();
    let r = parser.parse(&tokens);
    let reports = parser.reports().iter().map(|e| e.render()).collect();
    (r, reports)
}

#[test]
fn parses_precedence() {
    let (stmts, reports) = parse("print 1 + 2 * 3;");
    assert!(reports.is_empty());
    let stmts = stmts.unwrap();
    assert_eq!(stmts.len(), 1);
    match &stmts[0] {
        Stmt::Print { expr } => match &*expr.expr {
            Expr::Binary { op: BinaryOp::Plus, left, right } => {
                assert!(matches!(&*left.expr, Expr::Literal { value: Literal::Num { lexeme } } if lexeme == "1"));
                assert!(matches!(&*right.expr, Expr::Binary { op: BinaryOp::Multiply, .. }));
            }
            _ => panic!("expected a sum"),
        },
        _ => panic!("expected a print statement"),
    }
}

#[test]
fn for_loop_becomes_block_with_while() {
    let (stmts, _) = parse("for (var i = 0; i < 3; i = i + 1) print i;");
    let stmts = stmts.unwrap();
    assert_eq!(stmts.len(), 1);
    match &stmts[0] {
        Stmt::Block { statements } => {
            assert_eq!(statements.len(), 2);
            assert!(matches!(&statements[0], Stmt::Var { .. }));
            assert!(matches!(&statements[1], Stmt::While { .. }));
        }
        _ => panic!("expected a block"),
    }
}

#[test]
fn missing_variable_name() {
    let (stmts, reports) = parse("var = 1;");
    assert!(stmts.is_none());
    assert_eq!(reports, vec!["[line 1] Error at '=': Expect variable name.".to_string()]);
}

#[test]
fn missing_semicolon_at_end() {
    let (stmts, reports) = parse("print 1");
    assert!(stmts.is_none());
    assert_eq!(reports, vec!["[line 1] Error at end: Expect ';' after value.".to_string()]);
}

#[test]
fn invalid_assignment_target() {
    let (stmts, reports) = parse("1 = 2;");
    assert!(stmts.is_none());
    assert_eq!(reports, vec!["[line 1] Error at '=': Invalid assignment target.".to_string()]);
}

#[test]
fn recovers_and_reports_each_statement() {
    let (stmts, reports) = parse("var = 1;\nprint ;\nprint 2;");
    assert!(stmts.is_none());
    assert_eq!(
        reports,
        vec![
            "[line 1] Error at '=': Expect variable name.".to_string(),
            "[line 2] Error at ';': Expect expression.".to_string()
        ]
    );
}

#[test]
fn node_ids_are_distinct() {
    let (stmts, _) = parse("print a + b;");
    let stmts = stmts.unwrap();
    match &stmts[0] {
        Stmt::Print { expr } => match &*expr.expr {
            Expr::Binary { left, right, .. } => {
                assert_ne!(left.id, right.id);
                assert_ne!(left.id, expr.id);
            }
            _ => panic!("expected a binary expression"),
        },
        _ => panic!("expected a print statement"),
    }
}

#[test]
fn minus_groups_to_the_left() {
    let (stmts, _) = parse("1 - 2 - 3;");
    let stmts = stmts.unwrap();
    match &stmts[0] {
        Stmt::Expr { expr } => match &*expr.expr {
            Expr::Binary { op: BinaryOp::Minus, left, right } => {
                assert!(matches!(&*left.expr, Expr::Binary { op: BinaryOp::Minus, .. }));
                assert!(matches!(&*right.expr, Expr::Literal { value: Literal::Num { lexeme } } if lexeme == "3"));
            }
            _ => panic!("expected a difference"),
        },
        _ => panic!("expected an expression statement"),
    }
}

#[test]
fn star_binds_tighter_than_minus() {
    let (stmts, _) = parse("2 * 3 - 4;");
    let stmts = stmts.unwrap();
    match &stmts[0] {
        Stmt::Expr { expr } => match &*expr.expr {
            Expr::Binary { op: BinaryOp::Minus, left, .. } => {
                assert!(matches!(&*left.expr, Expr::Binary { op: BinaryOp::Multiply, .. }));
            }
            _ => panic!("expected a difference"),
        },
        _ => panic!("expected an expression statement"),
    }
}

#[test]
fn node_lines_of_primaries() {
    let (stmts, _) = parse("print 1\n;\nprint (\n2);\nprint\nx\n;");
    let stmts = stmts.unwrap();
    match &stmts[0] {
        Stmt::Print { expr } => assert_eq!(expr.line, 2),
        _ => panic!("expected a print statement"),
    }
    match &stmts[1] {
        Stmt::Print { expr } => {
            assert!(matches!(&*expr.expr, Expr::Grouping { .. }));
            assert_eq!(expr.line, 4);
        }
        _ => panic!("expected a print statement"),
    }
    match &stmts[2] {
        Stmt::Print { expr } => assert_eq!(expr.line, 6),
        _ => panic!("expected a print statement"),
    }
}
