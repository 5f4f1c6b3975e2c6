//! The grammar, as a function from tokens to the syntax tree.
//!
//! Each function here reads the tokens from a [`Cursor`] on and gives what
//! it made of them together with the cursor behind what it read. The
//! [`crate::parser::Parser`] computes exactly these functions.
//!
//! A function that goes on after a part of the grammar has been read takes
//! a `bound`, the number of tokens that were left before that part, and
//! gives up where more than `bound` tokens are left now. No part ever hands
//! the cursor back, so the test never fails; it is there to make the
//! recursion plainly finite.

use vstd::prelude::*;
use crate::constants::errors::{
    EXPECT_EXPRESSION, INVALID_ASSIGNMENT_TARGET, TOO_MANY_ARGUMENTS, TOO_MANY_PARAMETERS,
};
use crate::error::{LoxErrorView, PARSER};
use crate::grammar::{
    ExpressionView, FunctionView, LiteralView, StatementView, TokenType, TokenView,
};

verus! {

/// A place among the tokens, and the id that the next resolvable node gets.
pub struct Cursor {
    pub current: nat,
    pub next_id: nat,
}

/// What a part of the grammar made of the tokens, and where it stopped.
pub struct Parsed<T> {
    pub result: Result<T, LoxErrorView>,
    pub cursor: Cursor,
}

/// The most arguments that a call, and parameters that a function, may have.
pub const MAX_ARITY: usize = 255;

/// Whether the token carries the literal that its kind asks for: a number
/// on a `NUMBER` token, a string on a `STRING` token.
pub open spec fn literal_fits(token: TokenView) -> bool {
    &&& token.token_type == TokenType::NUMBER ==> (token.literal is Some
        && token.literal->Some_0 is Number)
    &&& token.token_type == TokenType::STRING ==> (token.literal is Some
        && token.literal->Some_0 is String)
}

/// A token sequence that a parser can read: it ends in an `EOF` token, and
/// every `NUMBER` and `STRING` token carries its literal.
pub open spec fn well_formed(tokens: Seq<TokenView>) -> bool {
    &&& tokens.len() > 0
    &&& tokens.last().token_type == TokenType::EOF
    &&& forall|i: int| 0 <= i < tokens.len() ==> literal_fits(#[trigger] tokens[i])
}

/// The next token.
pub open spec fn peek(tokens: Seq<TokenView>, c: Cursor) -> TokenView {
    tokens[c.current as int]
}

/// Whether nothing is left to read: the next token is `EOF`, or the last.
pub open spec fn is_at_end(tokens: Seq<TokenView>, c: Cursor) -> bool {
    c.current + 1 >= tokens.len() || peek(tokens, c).token_type == TokenType::EOF
}

/// Whether the next token is of the kind `kind`; never so at the end.
pub open spec fn check(tokens: Seq<TokenView>, c: Cursor, kind: TokenType) -> bool {
    !is_at_end(tokens, c) && peek(tokens, c).token_type == kind
}

/// The cursor behind the next token; at the end it stays.
pub open spec fn advance(tokens: Seq<TokenView>, c: Cursor) -> Cursor {
    if is_at_end(tokens, c) {
        c
    } else {
        Cursor { current: c.current + 1, ..c }
    }
}

/// The cursor after one id has been given out.
pub open spec fn numbered(c: Cursor) -> Cursor {
    Cursor { next_id: c.next_id + 1, ..c }
}

/// The error with `message` at `token`; the end of the text is shown as `end`.
pub open spec fn error_at(token: TokenView, message: Seq<char>) -> LoxErrorView {
    LoxErrorView::SyntaxError {
        line: token.line,
        error_type: PARSER@,
        lexeme: if token.token_type == TokenType::EOF {
            "end"@
        } else {
            token.lexeme
        },
        message,
    }
}

/// The part `value`, read up to `cursor`.
pub open spec fn done<T>(value: T, cursor: Cursor) -> Parsed<T> {
    Parsed { result: Ok(value), cursor }
}

/// The error with `message` at the next token.
pub open spec fn fail<T>(tokens: Seq<TokenView>, c: Cursor, message: Seq<char>) -> Parsed<T> {
    Parsed { result: Err(error_at(peek(tokens, c), message)), cursor: c }
}

/// The error of a part, as the error of the whole.
pub open spec fn failed<S, T>(part: Parsed<S>) -> Parsed<T> {
    Parsed { result: Err(part.result->Err_0), cursor: part.cursor }
}

/// The next token if it is of the kind `kind`, else the error with `message`.
pub open spec fn consume(tokens: Seq<TokenView>, c: Cursor, kind: TokenType, message: Seq<char>) -> Parsed<
    TokenView,
> {
    if check(tokens, c, kind) {
        done(peek(tokens, c), advance(tokens, c))
    } else {
        fail(tokens, c, message)
    }
}

/// The levels of binary operators, from the loosest to the tightest.
pub open spec fn operator_at(level: nat, kind: TokenType) -> bool {
    if level == 6 {
        kind == TokenType::OR
    } else if level == 5 {
        kind == TokenType::AND
    } else if level == 4 {
        kind == TokenType::BANG_EQUAL || kind == TokenType::EQUAL_EQUAL
    } else if level == 3 {
        kind == TokenType::GREATER || kind == TokenType::GREATER_EQUAL || kind == TokenType::LESS
            || kind == TokenType::LESS_EQUAL
    } else if level == 2 {
        kind == TokenType::MINUS || kind == TokenType::PLUS
    } else if level == 1 {
        kind == TokenType::SLASH || kind == TokenType::STAR
    } else {
        false
    }
}

/// The node for an operator of a level: `or` and `and` short-circuit.
pub open spec fn joined(level: nat, left: ExpressionView, op: TokenView, right: ExpressionView) -> ExpressionView {
    if level >= 5 {
        ExpressionView::Logical { left: Box::new(left), op, right: Box::new(right) }
    } else {
        ExpressionView::Binary { left: Box::new(left), op, right: Box::new(right) }
    }
}

/// The number of tokens that are left to read.
pub open spec fn left(tokens: Seq<TokenView>, c: Cursor) -> nat {
    if c.current <= tokens.len() {
        (tokens.len() - c.current) as nat
    } else {
        0
    }
}

/// `expression → assignment`, and `assignment → ( call "." )? IDENT "="
/// assignment | logic_or`: the target is read as an expression and, if `=`
/// follows, turned into the assignment it stands for.
pub open spec fn expression(tokens: Seq<TokenView>, c: Cursor) -> Parsed<ExpressionView>
    decreases left(tokens, c), 20nat,
{
    let target = binary(tokens, c, 6);
    if target.result is Err {
        target
    } else {
        assignment(tokens, target.cursor, left(tokens, c), target.result->Ok_0)
    }
}

/// What follows the target `target` of a possible assignment. An error for
/// a target that is no variable and no property is shown at the `=`.
pub open spec fn assignment(tokens: Seq<TokenView>, c: Cursor, bound: nat, target: ExpressionView) -> Parsed<
    ExpressionView,
>
    decreases bound, 0nat,
{
    if left(tokens, c) > bound {
        fail(tokens, c, EXPECT_EXPRESSION@)
    } else if !check(tokens, c, TokenType::EQUAL) {
        done(target, c)
    } else {
        let value = expression(tokens, advance(tokens, c));
        if value.result is Err {
            value
        } else {
            match target {
                ExpressionView::Variable { id, name } => done(
                    ExpressionView::Assign {
                        id: value.cursor.next_id as usize,
                        name,
                        value: Box::new(value.result->Ok_0),
                    },
                    numbered(value.cursor),
                ),
                ExpressionView::Get { object, name } => done(
                    ExpressionView::SetProperty {
                        object,
                        name,
                        value: Box::new(value.result->Ok_0),
                    },
                    value.cursor,
                ),
                _ => Parsed {
                    result: Err(error_at(peek(tokens, c), INVALID_ASSIGNMENT_TARGET@)),
                    cursor: value.cursor,
                },
            }
        }
    }
}

/// The binary operators of the level `level` and tighter, left-associative:
/// `logic_or`, `logic_and`, `equality`, `comparison`, `term` and `factor`
/// are the levels 6 down to 1, and level 0 is `unary`.
pub open spec fn binary(tokens: Seq<TokenView>, c: Cursor, level: nat) -> Parsed<ExpressionView>
    decreases left(tokens, c), 3 + 2 * level,
{
    if level == 0 {
        unary(tokens, c)
    } else {
        let first = binary(tokens, c, (level - 1) as nat);
        if first.result is Err {
            first
        } else {
            binary_rest(tokens, first.cursor, left(tokens, c), level, first.result->Ok_0)
        }
    }
}

/// The operators and right operands that follow the operand `operand`.
pub open spec fn binary_rest(
    tokens: Seq<TokenView>,
    c: Cursor,
    bound: nat,
    level: nat,
    operand: ExpressionView,
) -> Parsed<ExpressionView>
    decreases bound, 2 + 2 * level,
{
    if left(tokens, c) > bound {
        fail(tokens, c, EXPECT_EXPRESSION@)
    } else if level == 0 || is_at_end(tokens, c) || !operator_at(level, peek(tokens, c).token_type) {
        done(operand, c)
    } else {
        let after = advance(tokens, c);
        let right = binary(tokens, after, (level - 1) as nat);
        if right.result is Err {
            right
        } else {
            binary_rest(
                tokens,
                right.cursor,
                left(tokens, after),
                level,
                joined(level, operand, peek(tokens, c), right.result->Ok_0),
            )
        }
    }
}

/// `unary → ( "!" | "-" ) unary | call`
pub open spec fn unary(tokens: Seq<TokenView>, c: Cursor) -> Parsed<ExpressionView>
    decreases left(tokens, c), 2nat,
{
    if check(tokens, c, TokenType::BANG) || check(tokens, c, TokenType::MINUS) {
        let right = unary(tokens, advance(tokens, c));
        if right.result is Err {
            right
        } else {
            done(
                ExpressionView::Unary { op: peek(tokens, c), right: Box::new(right.result->Ok_0) },
                right.cursor,
            )
        }
    } else {
        call(tokens, c)
    }
}

/// `call → primary ( "(" arguments? ")" | "." IDENT )*`
pub open spec fn call(tokens: Seq<TokenView>, c: Cursor) -> Parsed<ExpressionView>
    decreases left(tokens, c), 1nat,
{
    let callee = primary(tokens, c);
    if callee.result is Err {
        callee
    } else {
        call_rest(tokens, callee.cursor, left(tokens, c), callee.result->Ok_0)
    }
}

/// The calls and property reads that follow the expression `expr`.
pub open spec fn call_rest(tokens: Seq<TokenView>, c: Cursor, bound: nat, expr: ExpressionView) -> Parsed<
    ExpressionView,
>
    decreases bound, 0nat,
{
    if left(tokens, c) > bound {
        fail(tokens, c, EXPECT_EXPRESSION@)
    } else if check(tokens, c, TokenType::LEFT_PAREN) {
        let after = advance(tokens, c);
        let made = finish_call(tokens, after, expr);
        if made.result is Err {
            made
        } else {
            call_rest(tokens, made.cursor, left(tokens, after), made.result->Ok_0)
        }
    } else if check(tokens, c, TokenType::DOT) {
        let after = advance(tokens, c);
        let name = consume(tokens, after, TokenType::IDENTIFIER, "Expect property name after '.'"@);
        if name.result is Err {
            failed(name)
        } else {
            call_rest(
                tokens,
                name.cursor,
                left(tokens, after),
                ExpressionView::Get { object: Box::new(expr), name: name.result->Ok_0 },
            )
        }
    } else {
        done(expr, c)
    }
}

/// The arguments of a call and its closing parenthesis; the opening one has
/// been read.
pub open spec fn finish_call(tokens: Seq<TokenView>, c: Cursor, callee: ExpressionView) -> Parsed<
    ExpressionView,
>
    decreases left(tokens, c), 23nat,
{
    let arguments = if check(tokens, c, TokenType::RIGHT_PAREN) {
        done(Seq::<ExpressionView>::empty(), c)
    } else {
        arguments(tokens, c, Seq::<ExpressionView>::empty())
    };
    if arguments.result is Err {
        failed(arguments)
    } else {
        let paren = consume(
            tokens,
            arguments.cursor,
            TokenType::RIGHT_PAREN,
            "Expect ')' after arguments."@,
        );
        if paren.result is Err {
            failed(paren)
        } else {
            done(
                ExpressionView::Call {
                    callee: Box::new(callee),
                    paren_line: paren.result->Ok_0.line,
                    arguments: arguments.result->Ok_0,
                },
                paren.cursor,
            )
        }
    }
}

/// `arguments → expression ( "," expression )*`, at most 255 of them;
/// `found` are the arguments read so far.
pub open spec fn arguments(tokens: Seq<TokenView>, c: Cursor, found: Seq<ExpressionView>) -> Parsed<
    Seq<ExpressionView>,
>
    decreases left(tokens, c), 22nat,
{
    if found.len() >= MAX_ARITY {
        fail(tokens, c, TOO_MANY_ARGUMENTS@)
    } else {
        let argument = expression(tokens, c);
        if argument.result is Err {
            failed(argument)
        } else {
            more_arguments(
                tokens,
                argument.cursor,
                left(tokens, c),
                found.push(argument.result->Ok_0),
            )
        }
    }
}

/// The arguments that follow the arguments `found`, if a comma does.
pub open spec fn more_arguments(
    tokens: Seq<TokenView>,
    c: Cursor,
    bound: nat,
    found: Seq<ExpressionView>,
) -> Parsed<Seq<ExpressionView>>
    decreases bound, 21nat,
{
    if left(tokens, c) > bound {
        fail(tokens, c, EXPECT_EXPRESSION@)
    } else if check(tokens, c, TokenType::COMMA) {
        arguments(tokens, advance(tokens, c), found)
    } else {
        done(found, c)
    }
}

/// `primary → "true" | "false" | "nil" | "this" | NUMBER | STRING | IDENT
/// | "(" expression ")" | "super" "." IDENT`
pub open spec fn primary(tokens: Seq<TokenView>, c: Cursor) -> Parsed<ExpressionView>
    decreases left(tokens, c), 0nat,
{
    let token = peek(tokens, c);
    let after = advance(tokens, c);
    if check(tokens, c, TokenType::FALSE) {
        done(ExpressionView::Literal(LiteralView::Boolean(false)), after)
    } else if check(tokens, c, TokenType::TRUE) {
        done(ExpressionView::Literal(LiteralView::Boolean(true)), after)
    } else if check(tokens, c, TokenType::NIL) {
        done(ExpressionView::Literal(LiteralView::Nil), after)
    } else if check(tokens, c, TokenType::NUMBER) || check(tokens, c, TokenType::STRING) {
        done(
            ExpressionView::Literal(
                match token.literal {
                    Some(literal) => literal,
                    None => LiteralView::Nil,
                },
            ),
            after,
        )
    } else if check(tokens, c, TokenType::SUPER) {
        let dot = consume(tokens, after, TokenType::DOT, "Expect '.' after 'super'."@);
        if dot.result is Err {
            failed(dot)
        } else {
            let method = consume(
                tokens,
                dot.cursor,
                TokenType::IDENTIFIER,
                "Expect superclass method name."@,
            );
            if method.result is Err {
                failed(method)
            } else {
                done(
                    ExpressionView::Super {
                        id: method.cursor.next_id as usize,
                        keyword: token,
                        method: method.result->Ok_0,
                    },
                    numbered(method.cursor),
                )
            }
        }
    } else if check(tokens, c, TokenType::THIS) {
        done(
            ExpressionView::This { id: after.next_id as usize, keyword: token },
            numbered(after),
        )
    } else if check(tokens, c, TokenType::IDENTIFIER) {
        done(
            ExpressionView::Variable { id: after.next_id as usize, name: token },
            numbered(after),
        )
    } else if check(tokens, c, TokenType::LEFT_PAREN) {
        let inner = expression(tokens, after);
        if inner.result is Err {
            inner
        } else {
            let paren = consume(
                tokens,
                inner.cursor,
                TokenType::RIGHT_PAREN,
                "Expect ')' after expression."@,
            );
            if paren.result is Err {
                failed(paren)
            } else {
                done(ExpressionView::Grouping(Box::new(inner.result->Ok_0)), paren.cursor)
            }
        }
    } else {
        fail(tokens, c, EXPECT_EXPRESSION@)
    }
}

/// The message that a name of the kind `kind` is missing.
pub open spec fn expect_name(kind: Seq<char>) -> Seq<char> {
    "Expect "@ + kind + " name."@
}

/// The message that the parenthesis after a name of the kind `kind` is missing.
pub open spec fn expect_paren(kind: Seq<char>) -> Seq<char> {
    "Expect '(' after "@ + kind + " name."@
}

/// The message that the body of a function of the kind `kind` is missing.
pub open spec fn expect_body(kind: Seq<char>) -> Seq<char> {
    "Expect '{' before "@ + kind + " body."@
}

/// `program → declaration* EOF`; `found` are the statements read so far.
pub open spec fn program(tokens: Seq<TokenView>, c: Cursor, found: Seq<StatementView>) -> Parsed<
    Seq<StatementView>,
>
    decreases left(tokens, c), 43nat,
{
    if is_at_end(tokens, c) {
        done(found, c)
    } else {
        let item = declaration(tokens, c);
        if item.result is Err {
            failed(item)
        } else {
            more_program(tokens, item.cursor, left(tokens, c), found.push(item.result->Ok_0))
        }
    }
}

/// The rest of a program after a declaration.
pub open spec fn more_program(
    tokens: Seq<TokenView>,
    c: Cursor,
    bound: nat,
    found: Seq<StatementView>,
) -> Parsed<Seq<StatementView>>
    decreases bound, 0nat,
{
    if left(tokens, c) >= bound {
        fail(tokens, c, EXPECT_EXPRESSION@)
    } else {
        program(tokens, c, found)
    }
}

/// `declaration → classDecl | funDecl | varDecl | statement`
pub open spec fn declaration(tokens: Seq<TokenView>, c: Cursor) -> Parsed<StatementView>
    decreases left(tokens, c), 40nat,
{
    if check(tokens, c, TokenType::CLASS) {
        class_declaration(tokens, advance(tokens, c))
    } else if check(tokens, c, TokenType::FUN) {
        let function = function(tokens, advance(tokens, c), "function"@);
        if function.result is Err {
            failed(function)
        } else {
            done(StatementView::Function(function.result->Ok_0), function.cursor)
        }
    } else if check(tokens, c, TokenType::VAR) {
        variable(tokens, advance(tokens, c))
    } else {
        statement(tokens, c)
    }
}

/// `classDecl → "class" IDENT ( "<" IDENT )? "{" function* "}"`; the
/// keyword has been read. The superclass is a variable expression.
pub open spec fn class_declaration(tokens: Seq<TokenView>, c: Cursor) -> Parsed<StatementView>
    decreases left(tokens, c), 35nat,
{
    let name = consume(tokens, c, TokenType::IDENTIFIER, "Expect class name."@);
    if name.result is Err {
        failed(name)
    } else {
        let superclass = if check(tokens, name.cursor, TokenType::LESS) {
            let parent = consume(
                tokens,
                advance(tokens, name.cursor),
                TokenType::IDENTIFIER,
                "Expect superclass name."@,
            );
            if parent.result is Err {
                failed(parent)
            } else {
                done(
                    Some(
                        ExpressionView::Variable {
                            id: parent.cursor.next_id as usize,
                            name: parent.result->Ok_0,
                        },
                    ),
                    numbered(parent.cursor),
                )
            }
        } else {
            done(None, name.cursor)
        };
        if superclass.result is Err {
            failed(superclass)
        } else {
            let brace = consume(
                tokens,
                superclass.cursor,
                TokenType::LEFT_BRACE,
                "Expect '{' before class body."@,
            );
            if brace.result is Err {
                failed(brace)
            } else {
                let methods = methods(tokens, brace.cursor, Seq::<FunctionView>::empty());
                if methods.result is Err {
                    failed(methods)
                } else {
                    let close = consume(
                        tokens,
                        methods.cursor,
                        TokenType::RIGHT_BRACE,
                        "Expect '}' after class body."@,
                    );
                    if close.result is Err {
                        failed(close)
                    } else {
                        done(
                            StatementView::Class {
                                name: name.result->Ok_0,
                                superclass: superclass.result->Ok_0,
                                methods: methods.result->Ok_0,
                            },
                            close.cursor,
                        )
                    }
                }
            }
        }
    }
}

/// The methods of a class body, up to its closing brace.
pub open spec fn methods(tokens: Seq<TokenView>, c: Cursor, found: Seq<FunctionView>) -> Parsed<
    Seq<FunctionView>,
>
    decreases left(tokens, c), 34nat,
{
    if check(tokens, c, TokenType::RIGHT_BRACE) || is_at_end(tokens, c) {
        done(found, c)
    } else {
        let method = function(tokens, c, "method"@);
        if method.result is Err {
            failed(method)
        } else {
            more_methods(tokens, method.cursor, left(tokens, c), found.push(method.result->Ok_0))
        }
    }
}

/// The rest of a class body after a method.
pub open spec fn more_methods(
    tokens: Seq<TokenView>,
    c: Cursor,
    bound: nat,
    found: Seq<FunctionView>,
) -> Parsed<Seq<FunctionView>>
    decreases bound, 0nat,
{
    if left(tokens, c) >= bound {
        fail(tokens, c, EXPECT_EXPRESSION@)
    } else {
        methods(tokens, c, found)
    }
}

/// `parameters → IDENT ( "," IDENT )*`, at most 255 of them; `found` are
/// the parameters read so far.
pub open spec fn parameters(tokens: Seq<TokenView>, c: Cursor, found: Seq<TokenView>) -> Parsed<
    Seq<TokenView>,
>
    decreases left(tokens, c),
{
    if found.len() >= MAX_ARITY {
        fail(tokens, c, TOO_MANY_PARAMETERS@)
    } else {
        let param = consume(tokens, c, TokenType::IDENTIFIER, "Expect parameter name."@);
        if param.result is Err {
            failed(param)
        } else if check(tokens, param.cursor, TokenType::COMMA) {
            parameters(tokens, advance(tokens, param.cursor), found.push(param.result->Ok_0))
        } else {
            done(found.push(param.result->Ok_0), param.cursor)
        }
    }
}

/// `function → IDENT "(" parameters? ")" block`, for a function or a
/// method as `kind` says.
pub open spec fn function(tokens: Seq<TokenView>, c: Cursor, kind: Seq<char>) -> Parsed<FunctionView>
    decreases left(tokens, c), 33nat,
{
    let name = consume(tokens, c, TokenType::IDENTIFIER, expect_name(kind));
    if name.result is Err {
        failed(name)
    } else {
        let paren = consume(tokens, name.cursor, TokenType::LEFT_PAREN, expect_paren(kind));
        if paren.result is Err {
            failed(paren)
        } else {
            let params = if check(tokens, paren.cursor, TokenType::RIGHT_PAREN) {
                done(Seq::<TokenView>::empty(), paren.cursor)
            } else {
                parameters(tokens, paren.cursor, Seq::<TokenView>::empty())
            };
            if params.result is Err {
                failed(params)
            } else {
                function_body(
                    tokens,
                    params.cursor,
                    left(tokens, c),
                    kind,
                    name.result->Ok_0,
                    params.result->Ok_0,
                )
            }
        }
    }
}

/// The rest of a function after its parameters.
pub open spec fn function_body(
    tokens: Seq<TokenView>,
    c: Cursor,
    bound: nat,
    kind: Seq<char>,
    name: TokenView,
    params: Seq<TokenView>,
) -> Parsed<FunctionView>
    decreases bound, 0nat,
{
    if left(tokens, c) >= bound {
        fail(tokens, c, EXPECT_EXPRESSION@)
    } else {
        let paren = consume(tokens, c, TokenType::RIGHT_PAREN, "Expect ')' after parameters."@);
        if paren.result is Err {
            failed(paren)
        } else {
            let brace = consume(tokens, paren.cursor, TokenType::LEFT_BRACE, expect_body(kind));
            if brace.result is Err {
                failed(brace)
            } else {
                let body = block(tokens, brace.cursor);
                if body.result is Err {
                    failed(body)
                } else {
                    done(FunctionView { name, params, body: body.result->Ok_0 }, body.cursor)
                }
            }
        }
    }
}

/// `varDecl → "var" IDENT ( "=" expression )? ";"`; the keyword has been read.
pub open spec fn variable(tokens: Seq<TokenView>, c: Cursor) -> Parsed<StatementView>
    decreases left(tokens, c), 30nat,
{
    let name = consume(tokens, c, TokenType::IDENTIFIER, "Expect variable name."@);
    if name.result is Err {
        failed(name)
    } else {
        let init = if check(tokens, name.cursor, TokenType::EQUAL) {
            let value = expression(tokens, advance(tokens, name.cursor));
            if value.result is Err {
                failed(value)
            } else {
                done(Some(value.result->Ok_0), value.cursor)
            }
        } else {
            done(None, name.cursor)
        };
        if init.result is Err {
            failed(init)
        } else {
            let semicolon = consume(
                tokens,
                init.cursor,
                TokenType::SEMICOLON,
                "Expect ';' after variable declaration."@,
            );
            if semicolon.result is Err {
                failed(semicolon)
            } else {
                done(
                    StatementView::Variable { name: name.result->Ok_0, init: init.result->Ok_0 },
                    semicolon.cursor,
                )
            }
        }
    }
}

/// `exprStmt → expression ";"`
pub open spec fn expression_statement(tokens: Seq<TokenView>, c: Cursor) -> Parsed<StatementView>
    decreases left(tokens, c), 30nat,
{
    let value = expression(tokens, c);
    if value.result is Err {
        failed(value)
    } else {
        let semicolon = consume(
            tokens,
            value.cursor,
            TokenType::SEMICOLON,
            "Expect ';' after expression."@,
        );
        if semicolon.result is Err {
            failed(semicolon)
        } else {
            done(StatementView::Expression(value.result->Ok_0), semicolon.cursor)
        }
    }
}

/// `printStmt → "print" expression ";"`; the keyword has been read.
pub open spec fn print_statement(tokens: Seq<TokenView>, c: Cursor) -> Parsed<StatementView>
    decreases left(tokens, c), 30nat,
{
    let value = expression(tokens, c);
    if value.result is Err {
        failed(value)
    } else {
        let semicolon = consume(
            tokens,
            value.cursor,
            TokenType::SEMICOLON,
            "Expect ';' after value."@,
        );
        if semicolon.result is Err {
            failed(semicolon)
        } else {
            done(StatementView::Print(value.result->Ok_0), semicolon.cursor)
        }
    }
}

/// `returnStmt → "return" expression? ";"`; the keyword `keyword` has been read.
pub open spec fn return_statement(tokens: Seq<TokenView>, c: Cursor, keyword: TokenView) -> Parsed<
    StatementView,
>
    decreases left(tokens, c), 30nat,
{
    let value = if !check(tokens, c, TokenType::SEMICOLON) {
        let value = expression(tokens, c);
        if value.result is Err {
            failed(value)
        } else {
            done(Some(value.result->Ok_0), value.cursor)
        }
    } else {
        done(None, c)
    };
    if value.result is Err {
        failed(value)
    } else {
        let semicolon = consume(
            tokens,
            value.cursor,
            TokenType::SEMICOLON,
            "Expect ';' after return value."@,
        );
        if semicolon.result is Err {
            failed(semicolon)
        } else {
            done(StatementView::Return { keyword, value: value.result->Ok_0 }, semicolon.cursor)
        }
    }
}

/// `statement → exprStmt | forStmt | ifStmt | printStmt | returnStmt |
/// whileStmt | block`
pub open spec fn statement(tokens: Seq<TokenView>, c: Cursor) -> Parsed<StatementView>
    decreases left(tokens, c), 39nat,
{
    let after = advance(tokens, c);
    if check(tokens, c, TokenType::FOR) {
        for_statement(tokens, after)
    } else if check(tokens, c, TokenType::IF) {
        if_statement(tokens, after)
    } else if check(tokens, c, TokenType::PRINT) {
        print_statement(tokens, after)
    } else if check(tokens, c, TokenType::RETURN) {
        return_statement(tokens, after, peek(tokens, c))
    } else if check(tokens, c, TokenType::WHILE) {
        while_statement(tokens, after)
    } else if check(tokens, c, TokenType::LEFT_BRACE) {
        let body = block(tokens, after);
        if body.result is Err {
            failed(body)
        } else {
            done(StatementView::Block(body.result->Ok_0), body.cursor)
        }
    } else {
        expression_statement(tokens, c)
    }
}

/// `block → "{" declaration* "}"`; the opening brace has been read.
pub open spec fn block(tokens: Seq<TokenView>, c: Cursor) -> Parsed<Seq<StatementView>>
    decreases left(tokens, c), 42nat,
{
    let items = block_items(tokens, c, Seq::<StatementView>::empty());
    if items.result is Err {
        items
    } else {
        let brace = consume(tokens, items.cursor, TokenType::RIGHT_BRACE, "Expect '}' after block."@);
        if brace.result is Err {
            failed(brace)
        } else {
            done(items.result->Ok_0, brace.cursor)
        }
    }
}

/// The declarations of a block, up to its closing brace.
pub open spec fn block_items(tokens: Seq<TokenView>, c: Cursor, found: Seq<StatementView>) -> Parsed<
    Seq<StatementView>,
>
    decreases left(tokens, c), 41nat,
{
    if check(tokens, c, TokenType::RIGHT_BRACE) || is_at_end(tokens, c) {
        done(found, c)
    } else {
        let item = declaration(tokens, c);
        if item.result is Err {
            failed(item)
        } else {
            more_block_items(tokens, item.cursor, left(tokens, c), found.push(item.result->Ok_0))
        }
    }
}

/// The rest of a block after a declaration.
pub open spec fn more_block_items(
    tokens: Seq<TokenView>,
    c: Cursor,
    bound: nat,
    found: Seq<StatementView>,
) -> Parsed<Seq<StatementView>>
    decreases bound, 0nat,
{
    if left(tokens, c) >= bound {
        fail(tokens, c, EXPECT_EXPRESSION@)
    } else {
        block_items(tokens, c, found)
    }
}

/// `ifStmt → "if" "(" expression ")" statement ( "else" statement )?`; the
/// keyword has been read.
pub open spec fn if_statement(tokens: Seq<TokenView>, c: Cursor) -> Parsed<StatementView>
    decreases left(tokens, c), 30nat,
{
    let paren = consume(tokens, c, TokenType::LEFT_PAREN, "Expect '(' after 'if'."@);
    if paren.result is Err {
        failed(paren)
    } else {
        let condition = expression(tokens, paren.cursor);
        if condition.result is Err {
            failed(condition)
        } else {
            if_branches(tokens, condition.cursor, left(tokens, c), condition.result->Ok_0)
        }
    }
}

/// The rest of an `if` after its condition.
pub open spec fn if_branches(
    tokens: Seq<TokenView>,
    c: Cursor,
    bound: nat,
    condition: ExpressionView,
) -> Parsed<StatementView>
    decreases bound, 2nat,
{
    if left(tokens, c) >= bound {
        fail(tokens, c, EXPECT_EXPRESSION@)
    } else {
        let paren = consume(tokens, c, TokenType::RIGHT_PAREN, "Expect ')' after if condition."@);
        if paren.result is Err {
            failed(paren)
        } else {
            let then_branch = statement(tokens, paren.cursor);
            if then_branch.result is Err {
                then_branch
            } else {
                else_branch(tokens, then_branch.cursor, bound, condition, then_branch.result->Ok_0)
            }
        }
    }
}

/// The rest of an `if` after its first branch.
pub open spec fn else_branch(
    tokens: Seq<TokenView>,
    c: Cursor,
    bound: nat,
    condition: ExpressionView,
    then_branch: StatementView,
) -> Parsed<StatementView>
    decreases bound, 1nat,
{
    if left(tokens, c) >= bound {
        fail(tokens, c, EXPECT_EXPRESSION@)
    } else if check(tokens, c, TokenType::ELSE) {
        let otherwise = statement(tokens, advance(tokens, c));
        if otherwise.result is Err {
            otherwise
        } else {
            done(
                StatementView::If {
                    condition,
                    then_branch: Box::new(then_branch),
                    else_branch: Some(Box::new(otherwise.result->Ok_0)),
                },
                otherwise.cursor,
            )
        }
    } else {
        done(
            StatementView::If { condition, then_branch: Box::new(then_branch), else_branch: None },
            c,
        )
    }
}

/// `whileStmt → "while" "(" expression ")" statement`; the keyword has
/// been read.
pub open spec fn while_statement(tokens: Seq<TokenView>, c: Cursor) -> Parsed<StatementView>
    decreases left(tokens, c), 30nat,
{
    let paren = consume(tokens, c, TokenType::LEFT_PAREN, "Expect '(' after 'while'."@);
    if paren.result is Err {
        failed(paren)
    } else {
        let condition = expression(tokens, paren.cursor);
        if condition.result is Err {
            failed(condition)
        } else {
            while_body(tokens, condition.cursor, left(tokens, c), condition.result->Ok_0)
        }
    }
}

/// The rest of a `while` after its condition.
pub open spec fn while_body(
    tokens: Seq<TokenView>,
    c: Cursor,
    bound: nat,
    condition: ExpressionView,
) -> Parsed<StatementView>
    decreases bound, 1nat,
{
    if left(tokens, c) >= bound {
        fail(tokens, c, EXPECT_EXPRESSION@)
    } else {
        let paren = consume(tokens, c, TokenType::RIGHT_PAREN, "Expect ')' after condition."@);
        if paren.result is Err {
            failed(paren)
        } else {
            let body = statement(tokens, paren.cursor);
            if body.result is Err {
                body
            } else {
                done(
                    StatementView::While { condition, body: Box::new(body.result->Ok_0) },
                    body.cursor,
                )
            }
        }
    }
}

/// `forStmt → "for" "(" ( varDecl | exprStmt | ";" ) expression? ";"
/// expression? ")" statement`; the keyword has been read. The loop is
/// turned into the `while` loop that it stands for.
pub open spec fn for_statement(tokens: Seq<TokenView>, c: Cursor) -> Parsed<StatementView>
    decreases left(tokens, c), 30nat,
{
    let paren = consume(tokens, c, TokenType::LEFT_PAREN, "Expect '(' after 'for'."@);
    if paren.result is Err {
        failed(paren)
    } else {
        let start = paren.cursor;
        if check(tokens, start, TokenType::SEMICOLON) {
            for_condition(tokens, advance(tokens, start), left(tokens, c), None)
        } else {
            let initializer = if check(tokens, start, TokenType::VAR) {
                variable(tokens, advance(tokens, start))
            } else {
                expression_statement(tokens, start)
            };
            if initializer.result is Err {
                initializer
            } else {
                for_condition(
                    tokens,
                    initializer.cursor,
                    left(tokens, c),
                    Some(initializer.result->Ok_0),
                )
            }
        }
    }
}

/// The rest of a `for` after its initializer.
pub open spec fn for_condition(
    tokens: Seq<TokenView>,
    c: Cursor,
    bound: nat,
    initializer: Option<StatementView>,
) -> Parsed<StatementView>
    decreases bound, 3nat,
{
    if left(tokens, c) >= bound {
        fail(tokens, c, EXPECT_EXPRESSION@)
    } else if check(tokens, c, TokenType::SEMICOLON) {
        for_increment(
            tokens,
            c,
            bound,
            initializer,
            ExpressionView::Literal(LiteralView::Boolean(true)),
        )
    } else {
        let condition = expression(tokens, c);
        if condition.result is Err {
            failed(condition)
        } else {
            for_increment(tokens, condition.cursor, bound, initializer, condition.result->Ok_0)
        }
    }
}

/// The rest of a `for` after its condition.
pub open spec fn for_increment(
    tokens: Seq<TokenView>,
    c: Cursor,
    bound: nat,
    initializer: Option<StatementView>,
    condition: ExpressionView,
) -> Parsed<StatementView>
    decreases bound, 2nat,
{
    if left(tokens, c) >= bound {
        fail(tokens, c, EXPECT_EXPRESSION@)
    } else {
        let semicolon = consume(
            tokens,
            c,
            TokenType::SEMICOLON,
            "Expect ';' after loop condition."@,
        );
        if semicolon.result is Err {
            failed(semicolon)
        } else if check(tokens, semicolon.cursor, TokenType::RIGHT_PAREN) {
            for_body(tokens, semicolon.cursor, bound, initializer, condition, None)
        } else {
            let increment = expression(tokens, semicolon.cursor);
            if increment.result is Err {
                failed(increment)
            } else {
                for_body(
                    tokens,
                    increment.cursor,
                    bound,
                    initializer,
                    condition,
                    Some(increment.result->Ok_0),
                )
            }
        }
    }
}

/// The `while` loop that a `for` loop stands for: the increment follows
/// the body in a block, and the initializer precedes the loop in a block;
/// a part that is missing leaves its block out.
pub open spec fn desugared(
    initializer: Option<StatementView>,
    condition: ExpressionView,
    increment: Option<ExpressionView>,
    body: StatementView,
) -> StatementView {
    let stepped = match increment {
        Some(increment) => StatementView::Block(seq![body, StatementView::Expression(increment)]),
        None => body,
    };
    let looped = StatementView::While { condition, body: Box::new(stepped) };
    match initializer {
        Some(initializer) => StatementView::Block(seq![initializer, looped]),
        None => looped,
    }
}

/// The rest of a `for` after its increment.
pub open spec fn for_body(
    tokens: Seq<TokenView>,
    c: Cursor,
    bound: nat,
    initializer: Option<StatementView>,
    condition: ExpressionView,
    increment: Option<ExpressionView>,
) -> Parsed<StatementView>
    decreases bound, 1nat,
{
    if left(tokens, c) >= bound {
        fail(tokens, c, EXPECT_EXPRESSION@)
    } else {
        let paren = consume(tokens, c, TokenType::RIGHT_PAREN, "Expect ')' after for clauses."@);
        if paren.result is Err {
            failed(paren)
        } else {
            let body = statement(tokens, paren.cursor);
            if body.result is Err {
                body
            } else {
                done(desugared(initializer, condition, increment, body.result->Ok_0), body.cursor)
            }
        }
    }
}

} // verus!
