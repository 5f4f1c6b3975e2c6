use lox_interpreter::{
    Action, Arithmetic, Event, Interpreter, LoxError, Parser, Piece, Resolver, Scanner, Statement,
    Value,
};

fn compute(operator: Arithmetic, left: u64, right: u64) -> u64 {
    let l = f64::from_bits(left);
    let r = f64::from_bits(right);
    let result = match operator {
        Arithmetic::Add => l + r,
        Arithmetic::Subtract => l - r,
        Arithmetic::Multiply => l * r,
        Arithmetic::Divide => l / r,
    };
    result.to_bits()
}

fn show(piece: Piece) -> String {
    match piece {
        Piece::Text(text) => text,
        Piece::Number(bits) => format!("{}", f64::from_bits(bits)),
        Piece::Numeral(numeral) => numeral,
    }
}

/// Steps to the end; the number of steps taken is returned with the result.
fn drive(interpreter: &mut Interpreter, output: &mut Vec<String>) -> (Result<Value, LoxError>, usize) {
    let mut event = Event::Resume;
    let mut steps = 0;
    loop {
        let action = interpreter.step(event);
        steps += 1;
        event = Event::Resume;
        match action {
            Action::Continue => {}
            Action::Arithmetic { operator, left, right } => {
                event = Event::Number(compute(operator, left, right));
            }
            Action::ParseNumber(numeral) => {
                event = Event::Number(numeral.parse::<f64>().unwrap().to_bits());
            }
            Action::Clock => event = Event::Number(0),
            Action::Print(piece) => output.push(show(piece)),
            Action::Finished(value) => return (Ok(value), steps),
            Action::Failed(error) => return (Err(error), steps),
        }
    }
}

fn parse(source: &str) -> Vec<Statement> {
    let mut scanner = Scanner::new(source);
    let tokens = scanner.scan_tokens();
    assert!(!scanner.error());
    Parser::new(&tokens).parse().unwrap()
}

fn run(source: &str) -> (Vec<String>, Result<Value, LoxError>) {
    let statements = parse(source);
    let mut interpreter = Interpreter::new();
    Resolver::new().resolve(&mut interpreter, &statements).unwrap();
    interpreter.interpret(&statements);
    let mut output = Vec::new();
    let (result, _) = drive(&mut interpreter, &mut output);
    (output, result)
}

fn lines(source: &str) -> Vec<String> {
    let (output, result) = run(source);
    assert!(result.is_ok(), "{result:?}");
    output
}

#[test]
fn return_leaves_loops_and_blocks() {
    let source = r#"
        fun find(limit) {
          var i = 0;
          while (true) {
            { { if (i == limit) return i; } }
            i = i + 1;
          }
        }
        var before = "kept";
        print find(3);
        print before;
    "#;
    assert_eq!(lines(source), vec!["3", "kept"]);
}

#[test]
fn return_from_a_loop_restores_the_scope_of_the_caller() {
    let source = r#"
        var x = "outer";
        fun f() {
          var x = "inner";
          for (var i = 0; i < 10; i = i + 1) {
            var x = "loop";
            if (i == 2) return x;
          }
        }
        {
          var x = "block";
          print f();
          print x;
        }
        print x;
    "#;
    assert_eq!(lines(source), vec!["loop", "block", "outer"]);
}

#[test]
fn a_function_without_return_gives_nil() {
    assert_eq!(lines("fun f() {} print f(); fun g() { return; } print g();"), vec!["nil", "nil"]);
}

#[test]
fn recursion_keeps_each_call_apart() {
    let source = r#"
        fun count(n) {
          if (n > 0) { count(n - 1); }
          print n;
        }
        count(3);
    "#;
    assert_eq!(lines(source), vec!["0", "1", "2", "3"]);
}

#[test]
fn arguments_of_nested_calls_do_not_mix() {
    let source = r#"
        fun add(a, b, c) { return a + b + c; }
        fun twice(x) { return x * 2; }
        print add(1, add(10, twice(100), 1000), twice(add(1, 1, 1)));
    "#;
    assert_eq!(lines(source), vec!["1217"]);
}

#[test]
fn a_return_inside_an_argument_leaves_only_its_own_call() {
    let source = r#"
        fun pick(flag) { if (flag) { return "early"; } return "late"; }
        fun pair(a, b) { return a + "/" + b; }
        print pair(pick(true), pick(false));
    "#;
    assert_eq!(lines(source), vec!["early/late"]);
}

#[test]
fn this_is_kept_by_a_closure_in_a_method() {
    let source = r#"
        class Counter {
          init() { this.count = 0; }
          stepper() {
            fun step() { this.count = this.count + 1; return this.count; }
            return step;
          }
        }
        var counter = Counter();
        var step = counter.stepper();
        step();
        print step();
        print counter.count;
    "#;
    assert_eq!(lines(source), vec!["2", "2"]);
}

#[test]
fn super_reaches_over_several_levels() {
    let source = r#"
        class A { name() { return "A"; } }
        class B < A { name() { return "B>" + super.name(); } }
        class C < B { name() { return "C>" + super.name(); } }
        class D < C {}
        print D().name();
        var method = C().name;
        print method();
    "#;
    assert_eq!(lines(source), vec!["C>B>A", "C>B>A"]);
}

#[test]
fn an_inherited_initializer_runs_for_the_subclass() {
    let source = r#"
        class Base { init(a, b) { this.sum = a + b; } }
        class Derived < Base {}
        print Derived(1, 2).sum;
        class Own < Base { init() { super.init(3, 4); } }
        print Own().sum;
    "#;
    assert_eq!(lines(source), vec!["3", "7"]);
    let (_, result) = run("class Base { init(a) {} } class Derived < Base {} Derived();");
    assert_eq!(result.unwrap_err().to_string(), "Expected 1 arguments but got 0.");
}

#[test]
fn a_later_method_of_the_same_name_replaces_the_earlier() {
    let source = "class A { m() { return 1; } m() { return 2; } } print A().m();";
    assert_eq!(lines(source), vec!["2"]);
}

#[test]
fn a_class_can_name_itself_in_its_methods() {
    let source = r#"
        class Node {
          init(depth) { this.depth = depth; }
          child() { return Node(this.depth + 1); }
        }
        print Node(0).child().child().depth;
    "#;
    assert_eq!(lines(source), vec!["2"]);
}

#[test]
fn instances_are_shared_not_copied() {
    let source = r#"
        class Box {}
        var a = Box();
        var b = a;
        b.value = "set";
        print a.value;
        print a == b;
        fun fill(box) { box.value = "filled"; }
        fill(a);
        print b.value;
    "#;
    assert_eq!(lines(source), vec!["set", "true", "filled"]);
}

#[test]
fn the_value_of_an_assignment_is_the_value_assigned() {
    let source = r#"
        var a; var b;
        print a = b = 2;
        class Box {}
        var box = Box();
        print box.field = "f";
        print a + b;
    "#;
    assert_eq!(lines(source), vec!["2", "f", "4"]);
}

#[test]
fn the_object_of_a_property_write_is_checked_before_the_value_is_evaluated() {
    let source = r#"
        fun noisy() { print "evaluated"; return 1; }
        var plain = 1;
        plain.field = noisy();
    "#;
    let (output, result) = run(source);
    assert!(output.is_empty());
    assert_eq!(result.unwrap_err().to_string(), "Only instances have fields.");
}

#[test]
fn the_callee_is_checked_after_the_arguments_are_evaluated() {
    let source = r#"
        fun noisy() { print "evaluated"; return 1; }
        "text"(noisy());
    "#;
    let (output, result) = run(source);
    assert_eq!(output, vec!["evaluated"]);
    assert_eq!(result.unwrap_err().to_string(), "Can only call functions and classes.");
}

#[test]
fn what_was_printed_before_an_error_stays_printed() {
    let (output, result) = run("print 1; print 2 + nil; print 3;");
    assert_eq!(output, vec!["1"]);
    assert_eq!(result.unwrap_err().to_string(), "Operands must be two numbers or two strings.");
}

#[test]
fn after_an_error_the_interpreter_is_idle_at_the_top() {
    let statements = parse("var kept = 1; { var local = 2; fun f() { return missing; } f(); }");
    let mut interpreter = Interpreter::new();
    Resolver::new().resolve(&mut interpreter, &statements).unwrap();
    interpreter.interpret(&statements);
    let mut output = Vec::new();
    let (result, _) = drive(&mut interpreter, &mut output);
    assert!(matches!(result, Err(LoxError::UndefinedVariable { .. })));
    assert!(matches!(interpreter.step(Event::Resume), Action::Finished(Value::Nil)));
    assert_eq!(interpreter.global("kept"), Some(Value::Number(1f64.to_bits())));
    assert_eq!(interpreter.global("local"), None);
    assert_eq!(interpreter.global("f"), None);
}

#[test]
fn run_stops_at_its_limit_and_goes_on_when_asked_again() {
    let statements = parse("var i = 0; while (true) i = i;");
    let mut interpreter = Interpreter::new();
    Resolver::new().resolve(&mut interpreter, &statements).unwrap();
    interpreter.interpret(&statements);
    let mut action = interpreter.run(Event::Resume, 1000);
    let mut rounds = 0;
    while rounds < 50 {
        action = match action {
            Action::ParseNumber(numeral) => {
                interpreter.run(Event::Number(numeral.parse::<f64>().unwrap().to_bits()), 1000)
            }
            Action::Continue => interpreter.run(Event::Resume, 1000),
            other => panic!("{other:?}"),
        };
        rounds += 1;
    }
    assert!(matches!(action, Action::Continue));
}

#[test]
fn run_with_no_limit_left_takes_one_step() {
    let statements = parse("print nil;");
    let mut stepped = Interpreter::new();
    stepped.interpret(&statements);
    let mut ran = Interpreter::new();
    ran.interpret(&statements);
    let mut steps = 0;
    loop {
        let by_step = stepped.step(Event::Resume);
        let by_run = ran.run(Event::Resume, 0);
        steps += 1;
        match (by_step, by_run) {
            (Action::Continue, Action::Continue) => {}
            (Action::Print(a), Action::Print(b)) => assert_eq!(a, b),
            (Action::Finished(a), Action::Finished(b)) => {
                assert_eq!(a, b);
                break;
            }
            other => panic!("{other:?}"),
        }
    }
    assert!(steps > 3);
    let mut whole = Interpreter::new();
    whole.interpret(&statements);
    assert!(matches!(whole.run(Event::Resume, 100), Action::Print(Piece::Text(text)) if text == "nil"));
    assert!(matches!(whole.run(Event::Resume, 100), Action::Finished(Value::Nil)));
}

#[test]
fn a_request_is_repeated_until_it_is_answered() {
    let statements = parse("print 1 + 2;");
    let mut interpreter = Interpreter::new();
    interpreter.interpret(&statements);
    let mut action = interpreter.step(Event::Resume);
    while matches!(action, Action::Continue) {
        action = interpreter.step(Event::Resume);
    }
    assert!(matches!(&action, Action::ParseNumber(numeral) if numeral == "1"));
    let again = interpreter.step(Event::Resume);
    assert!(matches!(&again, Action::ParseNumber(numeral) if numeral == "1"));
    assert!(matches!(interpreter.step(Event::Number(1f64.to_bits())), Action::Continue));
    let mut output = Vec::new();
    let (result, _) = drive(&mut interpreter, &mut output);
    assert_eq!(result.unwrap(), Value::Nil);
    assert_eq!(output, vec!["3"]);
}

#[test]
fn arithmetic_is_handed_out_with_its_operands_in_order() {
    let statements = parse("print 7 - 2;");
    let mut interpreter = Interpreter::new();
    interpreter.interpret(&statements);
    let mut asked = Vec::new();
    let mut event = Event::Resume;
    loop {
        let action = interpreter.step(event);
        event = Event::Resume;
        match action {
            Action::ParseNumber(numeral) => {
                event = Event::Number(numeral.parse::<f64>().unwrap().to_bits());
            }
            Action::Arithmetic { operator, left, right } => {
                asked.push((operator, f64::from_bits(left), f64::from_bits(right)));
                event = Event::Number(100f64.to_bits());
            }
            Action::Print(piece) => assert_eq!(piece, Piece::Number(100f64.to_bits())),
            Action::Finished(_) => break,
            Action::Failed(error) => panic!("{error:?}"),
            _ => {}
        }
    }
    assert_eq!(asked, vec![(Arithmetic::Subtract, 7.0, 2.0)]);
}

#[test]
fn a_long_loop_needs_no_deep_stack() {
    let source = "var i = 0; while (i < 20000) i = i + 1; print i;";
    assert_eq!(lines(source), vec!["20000"]);
}

#[test]
fn deep_recursion_of_the_program_is_not_recursion_of_the_interpreter() {
    let source = "fun down(n) { if (n == 0) return 0; return 1 + down(n - 1); } print down(5000);";
    assert_eq!(lines(source), vec!["5000"]);
}

#[test]
fn a_top_level_value_can_be_taken_from_an_expression() {
    let mut scanner = Scanner::new("\"a\" + \"b\"");
    let tokens = scanner.scan_tokens();
    let expression = Parser::new(&tokens).expression().unwrap();
    let mut interpreter = Interpreter::new();
    interpreter.evaluate(&expression);
    let mut output = Vec::new();
    let (result, _) = drive(&mut interpreter, &mut output);
    let value = result.unwrap();
    assert!(matches!(value, Value::String(_)));
    assert_eq!(interpreter.stringify(value), Piece::Text("ab".to_string()));
}

#[test]
fn comparisons_of_numbers() {
    let source = "print 1 < 2; print 2 <= 2; print 3 > 4; print 4 >= 4; print 1 == 1.0; print 1 != 2;";
    assert_eq!(lines(source), vec!["true", "true", "false", "true", "true", "true"]);
}

#[test]
fn if_and_else_take_the_truthy_branch() {
    let source = r#"
        if (0) print "zero is true"; else print "unreached";
        if ("") print "empty is true";
        if (nil) print "unreached"; else print "nil is false";
        if (false) print "unreached";
        print "end";
    "#;
    assert_eq!(lines(source), vec!["zero is true", "empty is true", "nil is false", "end"]);
}

#[test]
fn a_block_sees_changes_made_in_it_outside() {
    let source = "var a = 1; { a = 2; var b = a; a = b + 1; } print a;";
    assert_eq!(lines(source), vec!["3"]);
}

#[test]
fn functions_are_values() {
    let source = r#"
        fun apply(f, x) { return f(x); }
        fun inc(x) { return x + 1; }
        print apply(inc, 1);
        var alias = inc;
        print alias == inc;
        print alias(5);
    "#;
    assert_eq!(lines(source), vec!["2", "true", "6"]);
}

#[test]
fn bound_methods_of_one_instance_are_made_anew_each_time() {
    let source = r#"
        class A { m() {} }
        var a = A();
        print a.m == a.m;
        var m = a.m;
        print m == m;
    "#;
    assert_eq!(lines(source), vec!["false", "true"]);
}
