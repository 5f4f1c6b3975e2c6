use lox_interpreter::{
    Action, Arithmetic, Event, Interpreter, LoxError, Parser, Piece, Resolver, Scanner, Statement,
    Value, RUNTIME_ERROR, SYNTAX_ERROR,
};

/// What a run of a program leaves behind.
struct Run {
    output: Vec<String>,
    failure: Option<(i32, String)>,
}

fn compute(operator: Arithmetic, left: u64, right: u64) -> u64 {
    let l = f64::from_bits(left);
    let r = f64::from_bits(right);
    let result = match operator {
        Arithmetic::Add => l + r,
        Arithmetic::Subtract => l - r,
        Arithmetic::Multiply => l * r,
        Arithmetic::Divide => l / r,
    };
    result.to_bits()
}

fn show(piece: Piece) -> String {
    match piece {
        Piece::Text(text) => text,
        Piece::Number(bits) => format!("{}", f64::from_bits(bits)),
        Piece::Numeral(numeral) => format!("{}", numeral.parse::<f64>().unwrap()),
    }
}

fn drive(interpreter: &mut Interpreter, output: &mut Vec<String>) -> Result<Value, LoxError> {
    let mut event = Event::Resume;
    loop {
        let action = interpreter.step(event);
        event = Event::Resume;
        match action {
            Action::Continue => {}
            Action::Arithmetic { operator, left, right } => {
                event = Event::Number(compute(operator, left, right));
            }
            Action::ParseNumber(numeral) => {
                event = Event::Number(numeral.parse::<f64>().unwrap().to_bits());
            }
            Action::Clock => {
                event = Event::Number(1234.5f64.to_bits());
            }
            Action::Print(piece) => output.push(show(piece)),
            Action::Finished(value) => return Ok(value),
            Action::Failed(error) => return Err(error),
        }
    }
}

fn parse(source: &str) -> Result<Vec<Statement>, LoxError> {
    let mut scanner = Scanner::new(source);
    let tokens = scanner.scan_tokens();
    assert!(!scanner.error());
    let mut parser = Parser::new(&tokens);
    parser.parse()
}

fn run(source: &str) -> Run {
    let mut output = Vec::new();
    let statements = match parse(source) {
        Ok(statements) => statements,
        Err(error) => return Run { output, failure: Some((SYNTAX_ERROR, error.to_string())) },
    };
    let mut interpreter = Interpreter::new();
    let mut resolver = Resolver::new();
    if let Err(error) = resolver.resolve(&mut interpreter, &statements) {
        return Run { output, failure: Some((SYNTAX_ERROR, error.to_string())) };
    }
    interpreter.interpret(&statements);
    match drive(&mut interpreter, &mut output) {
        Ok(_) => Run { output, failure: None },
        Err(error) => Run { output, failure: Some((RUNTIME_ERROR, error.to_string())) },
    }
}

fn lines(source: &str) -> Vec<String> {
    let run = run(source);
    assert_eq!(run.failure, None);
    run.output
}

#[test]
fn closure_captures_the_scope_of_its_declaration() {
    let source = r#"
        var a = "global";
        {
          fun showA() { print a; }
          showA();
          var a = "block";
          showA();
        }
    "#;
    assert_eq!(lines(source), vec!["global", "global"]);
}

#[test]
fn fibonacci_with_recursion() {
    let source = "fun fib(n) { if (n < 2) return n; return fib(n-2) + fib(n-1); }\nprint fib(10);";
    assert_eq!(lines(source), vec!["55"]);
}

#[test]
fn class_with_method() {
    let source = r#"
        class Bacon { eat() { print "Crunch crunch crunch!"; } }
        Bacon().eat();
    "#;
    assert_eq!(lines(source), vec!["Crunch crunch crunch!"]);
}

#[test]
fn inheritance_and_super() {
    let source = r#"
        class A { method() { print "A method"; } }
        class B < A { method() { print "B method"; } test() { super.method(); } }
        class C < B {}
        C().test();
    "#;
    assert_eq!(lines(source), vec!["A method"]);
}

#[test]
fn reading_a_local_in_its_own_initializer_is_a_static_error() {
    let run = run("var a = 1;\n{ var a = a; }");
    let (code, message) = run.failure.unwrap();
    assert_eq!(code, 65);
    assert!(message.contains("Can't read local variable in its own initializer."));
    assert_eq!(message, "[line 2] Resolver Error at 'a': Can't read local variable in its own initializer.");
    assert!(run.output.is_empty());
}

#[test]
fn adding_a_string_and_a_number_is_a_runtime_error() {
    let run = run("print \"a\" + 1;");
    let (code, message) = run.failure.unwrap();
    assert_eq!(code, 70);
    assert_eq!(message, "Operands must be two numbers or two strings.");
    assert!(run.output.is_empty());
}

#[test]
fn shadowing_ends_with_the_block() {
    let source = r#"
        var x = 1;
        { var x = 2; print x; }
        print x;
    "#;
    assert_eq!(lines(source), vec!["2", "1"]);
}

#[test]
fn wrong_number_of_arguments_is_an_error_and_runs_nothing() {
    let run = run("fun f(a, b) { print \"ran\"; }\nf(1);");
    let (code, message) = run.failure.unwrap();
    assert_eq!(code, 70);
    assert_eq!(message, "Expected 2 arguments but got 1.");
    assert!(run.output.is_empty());
}

#[test]
fn early_return_in_an_initializer_yields_the_instance() {
    let source = r#"
        class Thing {
          init(flag) {
            this.flag = flag;
            if (flag) return;
            this.late = "set";
          }
        }
        var early = Thing(true);
        var late = Thing(false);
        print early;
        print early.flag;
        print late.late;
        print early.init(false);
    "#;
    assert_eq!(lines(source), vec!["Thing instance", "true", "set", "Thing instance"]);
}

#[test]
fn operands_are_evaluated_from_left_to_right() {
    let source = r#"
        fun note(label, value) { print label; return value; }
        print note("l", 1) + note("r", 2);
        fun three(a, b, c) { return a + b + c; }
        print three(note("a", 1), note("b", 2), note("c", 3));
    "#;
    assert_eq!(lines(source), vec!["l", "r", "3", "a", "b", "c", "6"]);
}

#[test]
fn arithmetic_follows_precedence() {
    assert_eq!(lines("print 1 + 2 * 3 - 4 / 8;"), vec!["6.5"]);
    assert_eq!(lines("print (1 + 2) * 3;"), vec!["9"]);
    assert_eq!(lines("print -3 - -2;"), vec!["-1"]);
    assert_eq!(lines("print 1 / 0;"), vec!["inf"]);
}

#[test]
fn logical_operators_short_circuit_and_keep_the_operand() {
    let source = r#"
        print nil or "yes";
        print 0 and "both";
        print false and 1;
        print 1 or 2;
    "#;
    assert_eq!(lines(source), vec!["yes", "both", "false", "1"]);
}

#[test]
fn for_loop_runs_as_its_while_loop() {
    let source = "for (var i = 0; i < 3; i = i + 1) print i;";
    assert_eq!(lines(source), vec!["0", "1", "2"]);
}

#[test]
fn while_loop_and_assignment() {
    let source = "var i = 3; while (i > 0) { print i; i = i - 1; }";
    assert_eq!(lines(source), vec!["3", "2", "1"]);
}

#[test]
fn strings_concatenate_and_compare_by_content() {
    let source = r#"
        var a = "ab";
        var b = "a" + "b";
        print a + "c";
        print a == b;
        print a != b;
        print a == "abc";
    "#;
    assert_eq!(lines(source), vec!["abc", "true", "false", "false"]);
}

#[test]
fn equality_never_raises_and_tells_kinds_apart() {
    let source = r#"
        print nil == nil;
        print 1 == 1;
        print 1 == "1";
        print true == 1;
        print nil == false;
        fun f() {}
        print f == f;
        class A {}
        print A == A;
        print A() == A();
        print 0 == -0;
    "#;
    assert_eq!(
        lines(source),
        vec!["true", "true", "false", "false", "false", "true", "true", "false", "true"]
    );
}

#[test]
fn fields_shadow_methods_and_methods_bind_this() {
    let source = r#"
        class Box {
          init(value) { this.value = value; }
          get() { return this.value; }
          label() { return "method"; }
        }
        var box = Box(7);
        var get = box.get;
        print get();
        box.label = "field";
        print box.label;
        box.value = 8;
        print get();
    "#;
    assert_eq!(lines(source), vec!["7", "field", "8"]);
}

#[test]
fn printable_forms_of_values() {
    let source = r#"
        fun named() {}
        class Shape {}
        print named;
        print clock;
        print Shape;
        print Shape();
        print nil;
        print true;
        print "text";
        print 2.5;
    "#;
    assert_eq!(
        lines(source),
        vec!["<fn named>", "<native fn>", "Shape", "Shape instance", "nil", "true", "text", "2.5"]
    );
}

#[test]
fn clock_is_answered_by_the_caller() {
    assert_eq!(lines("print clock();"), vec!["1234.5"]);
    let run = run("clock(1);");
    assert_eq!(run.failure.unwrap().1, "Expected 0 arguments but got 1.");
}

#[test]
fn runtime_errors_have_their_messages() {
    let message = |source: &str| run(source).failure.unwrap().1;
    assert_eq!(message("print -\"a\";"), "Operand must be a number.");
    assert_eq!(message("print 1 < \"a\";"), "Operands must be numbers.");
    assert_eq!(message("print 1 * nil;"), "Operands must be numbers.");
    assert_eq!(message("print missing;"), "Undefined variable 'missing'.\n[line 1]");
    assert_eq!(message("\nmissing = 1;"), "Undefined variable 'missing'.\n[line 2]");
    assert_eq!(message("\"text\"();"), "Can only call functions and classes.");
    assert_eq!(message("print 1.field;"), "Only instances have properties.");
    assert_eq!(message("var a = 1; a.field = 2;"), "Only instances have fields.");
    assert_eq!(message("class A {} print A().missing;"), "Undefined property 'missing'.");
    assert_eq!(message("var NotClass = 1; class A < NotClass {}"), "Superclass must be a class.");
    assert_eq!(message("class A {} A(1);"), "Expected 0 arguments but got 1.");
    assert_eq!(message("class A { init(a) {} } A();"), "Expected 1 arguments but got 0.");
    assert_eq!(
        message("class A {} class B < A { m() { super.missing(); } } B().m();"),
        "Undefined property 'missing'."
    );
}

#[test]
fn static_errors_have_their_messages() {
    let message = |source: &str| {
        let (code, message) = run(source).failure.unwrap();
        assert_eq!(code, 65);
        message
    };
    assert_eq!(message("return 1;"), "[line 1] Resolver Error at 'return': Can't return from top-level code.");
    assert_eq!(
        message("class A { init() { return 1; } }"),
        "[line 1] Resolver Error at 'return': Can't return a value from an initializer."
    );
    assert_eq!(message("print this;"), "[line 1] Resolver Error at 'this': Can't use 'this' outside of a class.");
    assert_eq!(
        message("print super.m;"),
        "[line 1] Resolver Error at 'super': Can't use 'super' outside of a class."
    );
    assert_eq!(
        message("class A { m() { super.m(); } }"),
        "[line 1] Resolver Error at 'super': Can't use 'super' in a class with no superclass."
    );
    assert_eq!(message("class A < A {}"), "[line 1] Resolver Error at 'A': A class can't inherit from itself.");
    assert_eq!(
        message("{ var a = 1; var a = 2; }"),
        "[line 1] Resolver Error at 'a': Already a variable with this name in this scope."
    );
    assert_eq!(message("print 1"), "[line 1] Error at 'end': Expect ';' after value.");
    assert_eq!(message("1 = 2;"), "[line 1] Error at '=': Invalid assignment target.");
    assert_eq!(message("print (1;"), "[line 1] Error at ';': Expect ')' after expression.");
    assert_eq!(message("\n\nprint ;"), "[line 3] Error at ';': Expect expression.");
    assert_eq!(message("fun () {}"), "[line 1] Error at '(': Expect function name.");
    assert_eq!(message("class A { 1 }"), "[line 1] Error at '1': Expect method name.");
}

#[test]
fn redefining_a_global_is_allowed() {
    assert_eq!(lines("var a = 1; var a = 2; print a;"), vec!["2"]);
}

#[test]
fn counter_closures_share_their_scope() {
    let source = r#"
        fun makeCounter() {
          var count = 0;
          fun increment() { count = count + 1; return count; }
          return increment;
        }
        var first = makeCounter();
        var second = makeCounter();
        print first();
        print first();
        print second();
    "#;
    assert_eq!(lines(source), vec!["1", "2", "1"]);
}

#[test]
fn methods_are_inherited_and_overridden() {
    let source = r#"
        class Animal {
          init(name) { this.name = name; }
          speak() { return this.name + " makes a sound"; }
          kind() { return "animal"; }
        }
        class Dog < Animal {
          speak() { return super.speak() + ", a bark"; }
        }
        var dog = Dog("Rex");
        print dog.speak();
        print dog.kind();
    "#;
    assert_eq!(lines(source), vec!["Rex makes a sound, a bark", "animal"]);
}

#[test]
fn an_expression_alone_is_evaluated() {
    let mut scanner = Scanner::new("1 + 2 * 3");
    let tokens = scanner.scan_tokens();
    let mut parser = Parser::new(&tokens);
    let expression = parser.expression().unwrap();
    let mut interpreter = Interpreter::new();
    let mut output = Vec::new();
    let first = interpreter.evaluate(&expression);
    assert!(matches!(first, Action::Continue));
    let value = drive(&mut interpreter, &mut output).unwrap();
    assert_eq!(value, Value::Number(7f64.to_bits()));
}
