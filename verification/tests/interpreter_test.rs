use lib::interpreter::{Action, Interpreter, NumOp};
use lib::parser::Parser;
use lib::runtime::Number;
use lib::scanner::scan_tokens;

fn host(op: &NumOp) -> Number {
    let v: f64 = match op {
        NumOp::Parse { lexeme } => lexeme.parse::<f64>().unwrap(),
        NumOp::Add { left, right } => f64::from_bits(left.bits) + f64::from_bits(right.bits),
        NumOp::Subtract { left, right } => f64::from_bits(left.bits) - f64::from_bits(right.bits),
        NumOp::Multiply { left, right } => f64::from_bits(left.bits) * f64::from_bits(right.bits),
        NumOp::Divide { left, right } => f64::from_bits(left.bits) / f64::from_bits(right.bits),
        NumOp::Clock => 42.0,
    };
    Number { bits: v.to_bits() }
}

fn run_in(interp: &mut Interpreter, source: &str) -> (Vec<String>, Option<String>) {
    let tokens = match scan_tokens(source) {
        Ok(t) => t,
        Err(e) => return (vec![], Some(e.render())),
    };
    let mut parser = Parser::new();
    let stmts = match parser.parse(&tokens) {
        Some(s) => s,
        None => return (vec![], Some(parser.reports()[0].render())),
    };
    interp.interpret(stmts);
    let mut out = vec![];
    loop {
        match interp.step() {
            Action::Continue => {}
            Action::Print { text } => out.push(text),
            Action::PrintNumber { value } => out.push(format!("{}", f64::from_bits(value.bits))),
            Action::Compute { op } => {
                let n = host(&op);
                interp.supply(n);
            }
            Action::Done { result } => return (out, result.err().map(|e| e.render())),
        }
    }
}

fn run(source: &str) -> (Vec<String>, Option<String>) {
    let mut interp = Interpreter::new();
    run_in(&mut interp, source)
}

#[test]
fn arithmetic_precedence() {
    assert_eq!(run("print 1 + 2 * 3;"), (vec!["7".to_string()], None));
    assert_eq!(run("print (1 + 2) * 3;"), (vec!["9".to_string()], None));
    assert_eq!(run("print 7 / 2;"), (vec!["3.5".to_string()], None));
    assert_eq!(run("print -(3 - 5);"), (vec!["2".to_string()], None));
}

#[test]
fn string_concatenation() {
    let (out, err) = run("var a = \"hi\"; var b = \" there\"; print a + b;");
    assert_eq!(out, vec!["hi there".to_string()]);
    assert_eq!(err, None);
}

#[test]
fn closures_keep_their_scope() {
    let src = "fun makeCounter() { var i = 0; fun count() { i = i + 1; print i; } return count; }\n\
               var counter = makeCounter(); counter(); counter();";
    assert_eq!(run(src), (vec!["1".to_string(), "2".to_string()], None));
}

#[test]
fn recursion() {
    let src = "fun fib(n) { if (n < 2) return n; return fib(n - 1) + fib(n - 2); } print fib(10);";
    assert_eq!(run(src), (vec!["55".to_string()], None));
}

#[test]
fn block_shadowing() {
    let src = "var a = \"global\"; { var a = \"inner\"; print a; } print a;";
    assert_eq!(run(src), (vec!["inner".to_string(), "global".to_string()], None));
}

#[test]
fn loops() {
    let (out, err) = run("for (var i = 0; i < 3; i = i + 1) print i;");
    assert_eq!(out, vec!["0", "1", "2"]);
    assert_eq!(err, None);
    let (out, err) = run("var n = 3; while (n > 0) { print n; n = n - 1; }");
    assert_eq!(out, vec!["3", "2", "1"]);
    assert_eq!(err, None);
}

#[test]
fn undefined_variable_error() {
    let (out, err) = run("print 1;\nprint x;");
    assert_eq!(out, vec!["1"]);
    assert_eq!(err, Some("Undefined variable 'x'.\n[line 2]".to_string()));
    let (_, err) = run("y = 2;");
    assert_eq!(err, Some("Undefined variable 'y'.\n[line 1]".to_string()));
}

#[test]
fn operands_must_be_numbers_reports_operator_line() {
    let (_, err) = run("\n\nprint 1 - \"a\";");
    assert_eq!(err, Some("Operands must be numbers.\n[line 3]".to_string()));
    let (_, err) = run("print 1 <\n true;");
    assert_eq!(err, Some("Operands must be numbers.\n[line 1]".to_string()));
    let (_, err) = run("print true\n\n\n\n - false;");
    assert_eq!(err, Some("Operands must be numbers.\n[line 5]".to_string()));
}

#[test]
fn plus_needs_two_numbers_or_two_strings() {
    let (_, err) = run("\nprint 1 + nil;");
    assert_eq!(err, Some("Operands must be two numbers or two strings.\n[line 2]".to_string()));
}

#[test]
fn negation_needs_a_number() {
    let (_, err) = run("print -\"a\";");
    assert_eq!(err, Some("Operand must be a number.\n[line 1]".to_string()));
    let (_, err) = run("print\n\n\n\n -\n true;");
    assert_eq!(err, Some("Operand must be a number.\n[line 5]".to_string()));
}

#[test]
fn arity_and_callee_errors() {
    let (_, err) = run("fun f(a) {}\nf(1, 2);");
    assert_eq!(err, Some("Expected 1 arguments but got 2.\n[line 2]".to_string()));
    let (_, err) = run("\"abc\"();");
    assert_eq!(err, Some("Can only call functions and classes.\n[line 1]".to_string()));
}

#[test]
fn printing_values() {
    let (out, err) = run("print clock; fun f() {} print f; print nil; print true; print f();");
    assert_eq!(out, vec!["<native fn>", "<fn f>", "nil", "true", "nil"]);
    assert_eq!(err, None);
    let (out, _) = run("print clock();");
    assert_eq!(out, vec!["42"]);
}

#[test]
fn equality_and_comparison() {
    let src = "print nil == nil; print 1 == 1; print \"a\" != \"a\"; print 0/0 == 0/0; print -0 == 0;";
    let (out, err) = run(src);
    assert_eq!(out, vec!["true", "true", "false", "false", "true"]);
    assert_eq!(err, None);
    let (out, err) = run("print 1 < 2; print 2 <= 2; print 3 > 4; print -1 >= -2; print -2 < -1; print 0/0 < 1;");
    assert_eq!(err, None);
    assert_eq!(out, vec!["true", "true", "false", "true", "true", "false"]);
}

#[test]
fn arithmetic_groups_to_the_left() {
    assert_eq!(run("print 1 - 1 - 1;"), (vec!["-1".to_string()], None));
    assert_eq!(run("print 8 / 4 / 2;"), (vec!["1".to_string()], None));
    assert_eq!(run("print 2 * 3 - 4;"), (vec!["2".to_string()], None));
    assert_eq!(run("print 1 + 2 < 4;"), (vec!["true".to_string()], None));
    assert_eq!(run("print 0/0 < 1;"), (vec!["false".to_string()], None));
}

#[test]
fn logical_operators_short_circuit() {
    let (out, err) = run("print nil or \"x\"; print false and undefined; print 1 and 2;");
    assert_eq!(out, vec!["x", "false", "2"]);
    assert_eq!(err, None);
}

#[test]
fn top_level_return_is_an_error() {
    let (_, err) = run("return 1;");
    assert_eq!(err, Some("[line 1] Error at 'return': Can't return from top-level code.".to_string()));
}

#[test]
fn prompt_keeps_variables_between_lines() {
    let mut interp = Interpreter::new();
    assert_eq!(run_in(&mut interp, "var a = 1;"), (vec![], None));
    assert_eq!(run_in(&mut interp, "print a;"), (vec!["1".to_string()], None));
}

#[test]
fn error_in_block_restores_scope() {
    let mut interp = Interpreter::new();
    let (_, err) = run_in(&mut interp, "{ var a = 1; print b; }");
    assert_eq!(err, Some("Undefined variable 'b'.\n[line 1]".to_string()));
    assert_eq!(run_in(&mut interp, "var c = 2; print c;"), (vec!["2".to_string()], None));
    let (_, err) = run_in(&mut interp, "print a;");
    assert_eq!(err, Some("Undefined variable 'a'.\n[line 1]".to_string()));
}

#[test]
fn step_on_idle_machine_is_done() {
    let mut interp = Interpreter::new();
    assert!(matches!(interp.step(), Action::Done { result: Ok(()) }));
}

#[test]
fn supply_without_wait_changes_nothing() {
    let mut interp = Interpreter::new();
    interp.supply(Number { bits: 0 });
    assert!(matches!(interp.step(), Action::Done { result: Ok(()) }));
}

#[test]
fn variable_error_reports_the_name_line() {
    let (_, err) = run("print\nx\n;");
    assert_eq!(err, Some("Undefined variable 'x'.\n[line 2]".to_string()));
    let (_, err) = run("print (\n\n1 - nil);");
    assert_eq!(err, Some("Operands must be numbers.\n[line 3]".to_string()));
}

#[test]
fn scope_is_restored_after_a_block_and_a_return() {
    let (out, err) = run(
        "var a = \"outer\";\n{ var a = \"inner\"; print a; }\nprint a;\nfun f() { var a = \"f\"; { return a; } }\nprint f();\nprint a;",
    );
    assert_eq!(err, None);
    assert_eq!(out, vec!["inner", "outer", "f", "outer"]);
}
