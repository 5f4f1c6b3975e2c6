use lox_interpreter::{
    Expression, Function, Literal, LoxError, Parser, Piece, Scanner, Statement, Token, TokenType,
};

fn tokens(source: &str) -> Vec<Token> {
    let mut scanner = Scanner::new(source);
    let tokens = scanner.scan_tokens();
    assert!(!scanner.error());
    tokens
}

fn expression(source: &str) -> Result<Expression, LoxError> {
    let tokens = tokens(source);
    Parser::new(&tokens).expression()
}

fn program(source: &str) -> Result<Vec<Statement>, LoxError> {
    let tokens = tokens(source);
    Parser::new(&tokens).parse()
}

fn text(pieces: Vec<Piece>) -> String {
    let mut line = String::new();
    for piece in pieces {
        match piece {
            Piece::Text(text) => line.push_str(&text),
            Piece::Number(bits) => line.push_str(&format!("{:?}", f64::from_bits(bits))),
            Piece::Numeral(numeral) => {
                line.push_str(&format!("{:?}", numeral.parse::<f64>().unwrap()))
            }
        }
    }
    line
}

fn form(source: &str) -> String {
    text(expression(source).unwrap().render())
}

fn message(source: &str) -> String {
    program(source).unwrap_err().to_string()
}

fn token(token_type: TokenType, lexeme: &str, line: usize) -> Token {
    Token { token_type, lexeme: lexeme.to_string(), literal: None, line }
}

fn number(numeral: &str) -> Expression {
    Expression::Literal(Literal::Number(numeral.to_string()))
}

fn variable(id: usize, name: &str, line: usize) -> Expression {
    Expression::Variable { id, name: token(TokenType::IDENTIFIER, name, line) }
}

#[test]
fn literals_print_as_their_values() {
    assert_eq!(form("true"), "true");
    assert_eq!(form("false"), "false");
    assert_eq!(form("nil"), "nil");
    assert_eq!(form("42"), "42.0");
    assert_eq!(form("12.40"), "12.4");
    assert_eq!(form("\"hello\""), "hello");
}

#[test]
fn the_three_plain_literals_read_back_from_their_printed_form() {
    for source in ["true", "false", "nil"] {
        let parsed = expression(source).unwrap();
        let printed = text(parsed.render());
        assert_eq!(printed, source);
        assert_eq!(expression(&printed).unwrap(), parsed);
    }
}

#[test]
fn operators_bind_by_precedence_and_to_the_left() {
    assert_eq!(form("1 + 2 * 3"), "(+ 1.0 (* 2.0 3.0))");
    assert_eq!(form("1 * 2 + 3"), "(+ (* 1.0 2.0) 3.0)");
    assert_eq!(form("1 - 2 - 3"), "(- (- 1.0 2.0) 3.0)");
    assert_eq!(form("8 / 4 / 2"), "(/ (/ 8.0 4.0) 2.0)");
    assert_eq!(form("1 < 2 == 3 >= 4"), "(== (< 1.0 2.0) (>= 3.0 4.0))");
    assert_eq!(form("a or b and c"), "(or (var a) (and (var b) (var c)))");
    assert_eq!(form("a == b or c != d"), "(or (== (var a) (var b)) (!= (var c) (var d)))");
    assert_eq!(form("!-x"), "(! (- (var x)))");
    assert_eq!(form("-1 - -2"), "(- (- 1.0) (- 2.0))");
    assert_eq!(form("(1 + 2) * 3"), "(* (group (+ 1.0 2.0)) 3.0)");
}

#[test]
fn assignment_binds_to_the_right() {
    assert_eq!(form("a = b = 3"), "(assign a (assign b 3.0))");
    assert_eq!(form("a.b.c = d"), "(set (get (var a) b) c (var d))");
    assert_eq!(form("a = b or c"), "(assign a (or (var b) (var c)))");
}

#[test]
fn calls_and_properties_chain() {
    assert_eq!(form("f()"), "(call (var f) )");
    assert_eq!(form("f(1, x)"), "(call (var f) 1.0, (var x))");
    assert_eq!(form("f(1)(2).g"), "(get (call (call (var f) 1.0) 2.0) g)");
    assert_eq!(form("this.x"), "(get this x)");
    assert_eq!(form("super.m(1)"), "(call (super m) 1.0)");
}

#[test]
fn logical_and_binary_nodes_differ() {
    let or = expression("a or b").unwrap();
    assert!(matches!(or, Expression::Logical { .. }));
    let plus = expression("a + b").unwrap();
    assert!(matches!(plus, Expression::Binary { .. }));
}

#[test]
fn resolvable_nodes_get_ids_in_the_order_they_are_made() {
    assert_eq!(
        expression("a + b").unwrap(),
        Expression::Binary {
            left: Box::new(variable(0, "a", 1)),
            op: token(TokenType::PLUS, "+", 1),
            right: Box::new(variable(1, "b", 1)),
        }
    );
    assert_eq!(
        expression("a = b").unwrap(),
        Expression::Assign {
            id: 2,
            name: token(TokenType::IDENTIFIER, "a", 1),
            value: Box::new(variable(1, "b", 1)),
        }
    );
    assert_eq!(
        expression("this").unwrap(),
        Expression::This { id: 0, keyword: token(TokenType::THIS, "this", 1) }
    );
    assert_eq!(
        expression("x + super.m").unwrap(),
        Expression::Binary {
            left: Box::new(variable(0, "x", 1)),
            op: token(TokenType::PLUS, "+", 1),
            right: Box::new(Expression::Super {
                id: 1,
                keyword: token(TokenType::SUPER, "super", 1),
                method: token(TokenType::IDENTIFIER, "m", 1),
            }),
        }
    );
}

#[test]
fn a_call_records_the_line_of_its_closing_parenthesis() {
    assert_eq!(
        expression("f(\n1\n)").unwrap(),
        Expression::Call {
            callee: Box::new(variable(0, "f", 1)),
            paren_line: 3,
            arguments: vec![number("1")],
        }
    );
}

#[test]
fn a_for_loop_becomes_a_while_loop() {
    let parsed = program("for (var i = 0; i < 2; i = i + 1) print i;").unwrap();
    let name = |id: usize| variable(id, "i", 1);
    let expected = Statement::Block(vec![
        Statement::Variable {
            name: token(TokenType::IDENTIFIER, "i", 1),
            init: Some(number("0")),
        },
        Statement::While {
            condition: Expression::Binary {
                left: Box::new(name(0)),
                op: token(TokenType::LESS, "<", 1),
                right: Box::new(number("2")),
            },
            body: Box::new(Statement::Block(vec![
                Statement::Print(name(4)),
                Statement::Expression(Expression::Assign {
                    id: 3,
                    name: token(TokenType::IDENTIFIER, "i", 1),
                    value: Box::new(Expression::Binary {
                        left: Box::new(name(2)),
                        op: token(TokenType::PLUS, "+", 1),
                        right: Box::new(number("1")),
                    }),
                }),
            ])),
        },
    ]);
    assert_eq!(parsed, vec![expected]);
}

#[test]
fn a_for_loop_without_clauses_loops_on_true() {
    let parsed = program("for (;;) f();").unwrap();
    assert_eq!(
        parsed,
        vec![Statement::While {
            condition: Expression::Literal(Literal::Boolean(true)),
            body: Box::new(Statement::Expression(Expression::Call {
                callee: Box::new(variable(0, "f", 1)),
                paren_line: 1,
                arguments: vec![],
            })),
        }]
    );
    let with_increment = program("for (; a; b) {}").unwrap();
    assert_eq!(
        with_increment,
        vec![Statement::While {
            condition: variable(0, "a", 1),
            body: Box::new(Statement::Block(vec![
                Statement::Block(vec![]),
                Statement::Expression(variable(1, "b", 1)),
            ])),
        }]
    );
}

#[test]
fn declarations_and_statements() {
    let parsed = program(
        "class B < A { init(x) { return; } }\nfun f(a, b) {}\nvar v;\nif (v) print 1; else { }\nwhile (v) v = nil;",
    )
    .unwrap();
    let expected = vec![
        Statement::Class {
            name: token(TokenType::IDENTIFIER, "B", 1),
            superclass: Some(variable(0, "A", 1)),
            methods: vec![Function {
                name: token(TokenType::IDENTIFIER, "init", 1),
                params: vec![token(TokenType::IDENTIFIER, "x", 1)],
                body: vec![Statement::Return {
                    keyword: token(TokenType::RETURN, "return", 1),
                    value: None,
                }],
            }],
        },
        Statement::Function(Function {
            name: token(TokenType::IDENTIFIER, "f", 2),
            params: vec![
                token(TokenType::IDENTIFIER, "a", 2),
                token(TokenType::IDENTIFIER, "b", 2),
            ],
            body: vec![],
        }),
        Statement::Variable { name: token(TokenType::IDENTIFIER, "v", 3), init: None },
        Statement::If {
            condition: variable(1, "v", 4),
            then_branch: Box::new(Statement::Print(number("1"))),
            else_branch: Some(Box::new(Statement::Block(vec![]))),
        },
        Statement::While {
            condition: variable(2, "v", 5),
            body: Box::new(Statement::Expression(Expression::Assign {
                id: 4,
                name: token(TokenType::IDENTIFIER, "v", 5),
                value: Box::new(Expression::Literal(Literal::Nil)),
            })),
        },
    ];
    assert_eq!(parsed, expected);
}

#[test]
fn an_else_belongs_to_the_nearest_if() {
    let parsed = program("if (a) if (b) c; else d;").unwrap();
    match &parsed[0] {
        Statement::If { else_branch: None, then_branch, .. } => {
            assert!(matches!(**then_branch, Statement::If { else_branch: Some(_), .. }));
        }
        other => panic!("{other:?}"),
    }
}

#[test]
fn parse_errors_name_line_lexeme_and_message() {
    assert_eq!(message("1 +"), "[line 1] Error at 'end': Expect expression.");
    assert_eq!(message("a = ;"), "[line 1] Error at ';': Expect expression.");
    assert_eq!(message("(a"), "[line 1] Error at 'end': Expect ')' after expression.");
    assert_eq!(message("f(a"), "[line 1] Error at 'end': Expect ')' after arguments.");
    assert_eq!(message("a.;"), "[line 1] Error at ';': Expect property name after '.'");
    assert_eq!(message("super;"), "[line 1] Error at ';': Expect '.' after 'super'.");
    assert_eq!(message("super.;"), "[line 1] Error at ';': Expect superclass method name.");
    assert_eq!(message("a"), "[line 1] Error at 'end': Expect ';' after expression.");
    assert_eq!(message("var 1;"), "[line 1] Error at '1': Expect variable name.");
    assert_eq!(message("var a = 1"), "[line 1] Error at 'end': Expect ';' after variable declaration.");
    assert_eq!(message("class {}"), "[line 1] Error at '{': Expect class name.");
    assert_eq!(message("class A < {}"), "[line 1] Error at '{': Expect superclass name.");
    assert_eq!(message("class A"), "[line 1] Error at 'end': Expect '{' before class body.");
    assert_eq!(message("class A { m() {}"), "[line 1] Error at 'end': Expect '}' after class body.");
    assert_eq!(message("fun f {}"), "[line 1] Error at '{': Expect '(' after function name.");
    assert_eq!(message("class A { m {} }"), "[line 1] Error at '{': Expect '(' after method name.");
    assert_eq!(message("fun f(1) {}"), "[line 1] Error at '1': Expect parameter name.");
    assert_eq!(message("fun f(a {}"), "[line 1] Error at '{': Expect ')' after parameters.");
    assert_eq!(message("fun f() 1"), "[line 1] Error at '1': Expect '{' before function body.");
    assert_eq!(message("class A { m() 1 }"), "[line 1] Error at '1': Expect '{' before method body.");
    assert_eq!(message("{ a;"), "[line 1] Error at 'end': Expect '}' after block.");
    assert_eq!(message("if a"), "[line 1] Error at 'a': Expect '(' after 'if'.");
    assert_eq!(message("if (a b"), "[line 1] Error at 'b': Expect ')' after if condition.");
    assert_eq!(message("while a"), "[line 1] Error at 'a': Expect '(' after 'while'.");
    assert_eq!(message("while (a b"), "[line 1] Error at 'b': Expect ')' after condition.");
    assert_eq!(message("for a"), "[line 1] Error at 'a': Expect '(' after 'for'.");
    assert_eq!(message("for (;a b"), "[line 1] Error at 'b': Expect ';' after loop condition.");
    assert_eq!(message("for (;;a b"), "[line 1] Error at 'b': Expect ')' after for clauses.");
    assert_eq!(message("return 1"), "[line 1] Error at 'end': Expect ';' after return value.");
    assert_eq!(message("print 1"), "[line 1] Error at 'end': Expect ';' after value.");
}

#[test]
fn an_invalid_assignment_target_is_reported_at_the_equals_sign() {
    assert_eq!(message("a + b\n=\nc;"), "[line 2] Error at '=': Invalid assignment target.");
    assert_eq!(message("(a) = 1;"), "[line 1] Error at '=': Invalid assignment target.");
    assert_eq!(message("f() = 1;"), "[line 1] Error at '=': Invalid assignment target.");
    assert_eq!(message("this = 1;"), "[line 1] Error at '=': Invalid assignment target.");
    assert_eq!(message("super.m = 1;"), "[line 1] Error at '=': Invalid assignment target.");
}

fn list(count: usize) -> String {
    (0..count).map(|i| format!("a{i}")).collect::<Vec<_>>().join(", ")
}

#[test]
fn a_call_takes_255_arguments_and_no_more() {
    assert!(program(&format!("f({});", list(255))).is_ok());
    assert_eq!(
        message(&format!("f({});", list(256))),
        "[line 1] Error at 'a255': Cannot have more than 255 arguments."
    );
}

#[test]
fn a_function_takes_255_parameters_and_no_more() {
    assert!(program(&format!("fun f({}) {{}}", list(255))).is_ok());
    assert_eq!(
        message(&format!("fun f({}) {{}}", list(256))),
        "[line 1] Error at 'a255': Cannot have more than 255 parameters."
    );
}

#[test]
fn the_parser_stops_at_the_first_error() {
    assert_eq!(message("var a = ;\nvar b = ;"), "[line 1] Error at ';': Expect expression.");
}

#[test]
fn an_empty_program_has_no_statements() {
    assert_eq!(program("").unwrap(), vec![]);
    assert_eq!(program("// nothing\n").unwrap(), vec![]);
}

#[test]
fn error_is_shown_at_the_token_or_at_the_end() {
    let at_token = Parser::error(&token(TokenType::IDENTIFIER, "name", 7), "Message.");
    assert_eq!(at_token.to_string(), "[line 7] Error at 'name': Message.");
    let at_end = Parser::error(&token(TokenType::EOF, "", 9), "Message.");
    assert_eq!(at_end.to_string(), "[line 9] Error at 'end': Message.");
}
