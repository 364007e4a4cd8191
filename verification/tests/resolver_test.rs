use lib::parser::Parser;
use lib::resolver::Resolver;
use lib::scanner::scan_tokens;

fn resolve(source: &str) -> (Vec<String>, Vec<(usize, usize)>) {
    let tokens = scan_tokens(source).unwrap();
    let mut parser = Parser::new();
    let stmts = parser.parse(&tokens).unwrap();
    let mut resolver = Resolver::new();
    resolver.resolve(&stmts);
    assert_eq!(resolver.had_errors(), !resolver.errors().is_empty());
    (
        resolver.errors().iter().map(|e| e.render()).collect(),
        resolver.resolutions().clone(),
    )
}

#[test]
fn globals_are_not_resolved() {
    let (errors, resolutions) = resolve("var a = 1; print a;");
    assert!(errors.is_empty());
    assert!(resolutions.is_empty());
}

#[test]
fn locals_resolve_to_their_depth() {
    let (errors, resolutions) = resolve("{ var a = 1; { print a; } }");
    assert!(errors.is_empty());
    assert_eq!(resolutions.len(), 1);
    assert_eq!(resolutions[0].1, 1);
}

#[test]
fn reading_a_local_in_its_own_initializer() {
    let (errors, _) = resolve("{ var a = a; }");
    assert_eq!(
        errors,
        vec!["[line 1] Error at 'a': Can't read local variable in its own initializer.".to_string()]
    );
}

#[test]
fn declaring_twice_in_one_scope() {
    let (errors, _) = resolve("{ var a = 1;\nvar a = 2; }");
    assert_eq!(
        errors,
        vec!["[line 2] Error at 'a': Already a variable with this name in this scope.".to_string()]
    );
    let (errors, _) = resolve("var a = 1; var a = 2;");
    assert!(errors.is_empty());
}

#[test]
fn return_outside_function() {
    let (errors, _) = resolve("return;");
    assert_eq!(errors, vec!["[line 1] Error at 'return': Can't return from top-level code.".to_string()]);
    let (errors, resolutions) = resolve("fun f(x) { return x; }");
    assert!(errors.is_empty());
    assert_eq!(resolutions.len(), 1);
    assert_eq!(resolutions[0].1, 0);
}

#[test]
fn errors_accumulate_in_order() {
    let (errors, _) = resolve("return;\n{ var a = a; }\nfun f() { var b; var b; }");
    assert_eq!(
        errors,
        vec![
            "[line 1] Error at 'return': Can't return from top-level code.".to_string(),
            "[line 2] Error at 'a': Can't read local variable in its own initializer.".to_string(),
            "[line 3] Error at 'b': Already a variable with this name in this scope.".to_string(),
        ]
    );
}
