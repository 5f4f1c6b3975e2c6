use lox_interpreter::{Interpreter, LoxError, Parser, Resolver, Scanner, Statement};

fn parse(source: &str) -> Vec<Statement> {
    let mut scanner = Scanner::new(source);
    let tokens = scanner.scan_tokens();
    assert!(!scanner.error());
    Parser::new(&tokens).parse().unwrap()
}

/// The depths recorded for the ids `0..count`.
fn depths(source: &str, count: usize) -> Vec<Option<usize>> {
    let statements = parse(source);
    let mut interpreter = Interpreter::new();
    let mut resolver = Resolver::new();
    resolver.resolve(&mut interpreter, &statements).unwrap();
    (0..count).map(|id| interpreter.depth_of(id)).collect()
}

fn error(source: &str) -> LoxError {
    let statements = parse(source);
    let mut interpreter = Interpreter::new();
    let mut resolver = Resolver::new();
    resolver.resolve(&mut interpreter, &statements).unwrap_err()
}

#[test]
fn globals_get_no_entry() {
    assert_eq!(depths("var a = 1; print a; a = 2;", 3), vec![None, None, None]);
}

#[test]
fn locals_get_the_number_of_scopes_between_use_and_definition() {
    let source = "{ var a = 1; print a; { print a; { var b; print a; print b; } } }";
    assert_eq!(depths(source, 4), vec![Some(0), Some(1), Some(2), Some(0)]);
}

#[test]
fn an_assignment_is_bound_like_a_read() {
    // ids: `a` read as target 0, `b` 1, assignment 2
    assert_eq!(depths("{ var a; { var b; a = b; } }", 3), vec![None, Some(0), Some(1)]);
}

#[test]
fn parameters_live_in_the_scope_of_the_function() {
    let source = "fun f(a) { print a; { print a; } } var g; { fun h() { print g; print h; } }";
    assert_eq!(depths(source, 4), vec![Some(0), Some(1), None, Some(1)]);
}

#[test]
fn this_and_super_are_bound_to_their_scopes() {
    // ids: A (superclass) 0, this 1, super 2
    let source = "class A {} class B < A { m() { this; super.m; } }";
    assert_eq!(depths(source, 3), vec![None, Some(1), Some(2)]);
    let plain = "class A { m() { this; { this; } } }";
    assert_eq!(depths(plain, 2), vec![Some(1), Some(2)]);
}

#[test]
fn a_closure_is_bound_to_the_declaration_it_saw() {
    let source = "var a = 1; { fun show() { print a; } var a = 2; print a; }";
    assert_eq!(depths(source, 2), vec![None, Some(0)]);
}

#[test]
fn each_id_has_at_most_one_depth() {
    let statements = parse("{ var a; a; a; a = a; }");
    let mut interpreter = Interpreter::new();
    let mut resolver = Resolver::new();
    resolver.resolve(&mut interpreter, &statements).unwrap();
    let recorded: Vec<Option<usize>> = (0..6).map(|id| interpreter.depth_of(id)).collect();
    assert_eq!(recorded, vec![Some(0), Some(0), None, Some(0), Some(0), None]);
    interpreter.resolve(0, 4);
    assert_eq!(interpreter.depth_of(0), Some(4));
}

#[test]
fn static_errors_carry_line_and_lexeme() {
    let message = |source: &str| error(source).to_string();
    assert_eq!(
        message("{\n var a = a;\n}"),
        "[line 2] Resolver Error at 'a': Can't read local variable in its own initializer."
    );
    assert_eq!(
        message("fun f(a, a) {}"),
        "[line 1] Resolver Error at 'a': Already a variable with this name in this scope."
    );
    assert_eq!(
        message("fun f() {\n var a;\n fun a() {}\n}"),
        "[line 3] Resolver Error at 'a': Already a variable with this name in this scope."
    );
    assert_eq!(
        message("fun f() { this; }"),
        "[line 1] Resolver Error at 'this': Can't use 'this' outside of a class."
    );
    assert_eq!(
        message("class A { init() { return nil; } }"),
        "[line 1] Resolver Error at 'return': Can't return a value from an initializer."
    );
    assert_eq!(
        message("{ class A < A {} }"),
        "[line 1] Resolver Error at 'A': A class can't inherit from itself."
    );
}

#[test]
fn what_is_allowed_is_not_an_error() {
    let ok = |source: &str| {
        let statements = parse(source);
        let mut interpreter = Interpreter::new();
        Resolver::new().resolve(&mut interpreter, &statements).is_ok()
    };
    assert!(ok("var a = 1; var a = a;"));
    assert!(ok("class A { init() { return; } m() { return 1; } }"));
    assert!(ok("fun f() { return 1; }"));
    assert!(ok("class A {} class B < A { m() { return super.m; } }"));
    assert!(ok("class A { m() { fun inner() { return this; } } }"));
    assert!(ok("{ var a; { var a; } }"));
}

#[test]
fn the_first_error_ends_the_pass() {
    let failure = error("return 1;\nprint this;");
    assert_eq!(
        failure.to_string(),
        "[line 1] Resolver Error at 'return': Can't return from top-level code."
    );
}
