//! The recursive-descent parser.

use vstd::prelude::*;
use vstd::string::StringExecFns;
use crate::constants::errors::{
    EXPECT_EXPRESSION, INVALID_ASSIGNMENT_TARGET, TOO_MANY_ARGUMENTS, TOO_MANY_PARAMETERS,
};
use crate::error::LoxError;
use crate::grammar::{
    functions_view, statements_view, tokens_view, Expression, ExpressionView, Function,
    FunctionView, Literal, Statement, StatementView, Token, TokenType, TokenView,
};
use crate::syntax::{left, well_formed, Cursor, Parsed, MAX_ARITY};

verus! {

/// The content of what a parser function returns, with the cursor it stops at.
pub open spec fn parsed<T: View>(result: Result<T, LoxError>, cursor: Cursor) -> Parsed<T::V> {
    Parsed {
        result: match result {
            Ok(value) => Ok(value@),
            Err(error) => Err(error@),
        },
        cursor,
    }
}

/// The content of a sequence of expressions.
pub open spec fn expressions_view(exprs: Seq<Expression>) -> Seq<ExpressionView> {
    Seq::new(exprs.len(), |i: int| exprs[i]@)
}

/// The content of an optional statement.
pub open spec fn optional_statement_view(statement: Option<Statement>) -> Option<StatementView> {
    match statement {
        Some(statement) => Some(statement@),
        None => None,
    }
}

/// The content of the statements that a parser function returns.
pub open spec fn parsed_statements(result: Result<Vec<Statement>, LoxError>, cursor: Cursor) -> Parsed<
    Seq<StatementView>,
> {
    Parsed {
        result: match result {
            Ok(statements) => Ok(statements_view(statements@)),
            Err(error) => Err(error@),
        },
        cursor,
    }
}

/// A parser over a sequence of tokens: a cursor into them, and the id that
/// the next resolvable node gets.
pub struct Parser<'a> {
    tokens: &'a [Token],
    current: usize,
    next_id: usize,
}

impl<'a> Parser<'a> {
    /// The content of the tokens that the parser reads.
    pub closed spec fn tokens(&self) -> Seq<TokenView> {
        tokens_view(self.tokens@)
    }

    /// Where the parser stands.
    pub closed spec fn cursor(&self) -> Cursor {
        Cursor { current: self.current as nat, next_id: self.next_id as nat }
    }

    /// The tokens are well formed, the cursor is on one of them, and no more
    /// ids were given out than tokens read.
    pub open spec fn wf(&self) -> bool {
        &&& well_formed(self.tokens())
        &&& self.cursor().current < self.tokens().len()
        &&& self.cursor().next_id <= self.cursor().current
    }

    /// The parser reads the same tokens as `before`, has not gone back, and
    /// has given out no more ids than it has read tokens since.
    pub open spec fn follows(&self, before: &Self) -> bool {
        &&& self.wf()
        &&& self.tokens() == before.tokens()
        &&& self.cursor().current >= before.cursor().current
        &&& self.cursor().next_id >= before.cursor().next_id
        &&& self.cursor().next_id - before.cursor().next_id <= self.cursor().current
            - before.cursor().current
    }

    /// As [`Self::follows`], with at least `read` tokens read, and one read
    /// wherever `result` is a success.
    pub open spec fn advanced<T>(&self, before: &Self, result: Result<T, LoxError>) -> bool {
        &&& self.follows(before)
        &&& result is Ok ==> self.cursor().current > before.cursor().current
    }

    /// A parser at the first of `tokens`.
    pub fn new(tokens: &'a [Token]) -> (parser: Self)
        requires
            well_formed(tokens_view(tokens@)),
        ensures
            parser.wf(),
            parser.tokens() == tokens_view(tokens@),
            parser.cursor() == (Cursor { current: 0, next_id: 0 }),
    {
        Parser { tokens, current: 0, next_id: 0 }
    }

    /// The error with `message` at `token`; the end of the text is shown as
    /// `end`.
    pub fn error(token: &Token, message: &str) -> (error: LoxError)
        ensures
            error@ == crate::syntax::error_at(token@, message@),
    {
        if token.token_type == TokenType::EOF {
            LoxError::parser_error(token.line, "end", message)
        } else {
            LoxError::parser_error(token.line, token.lexeme.as_str(), message)
        }
    }

    fn peek(&self) -> (token: &Token)
        requires
            self.wf(),
        ensures
            token@ == crate::syntax::peek(self.tokens(), self.cursor()),
    {
        &self.tokens[self.current]
    }

    fn is_at_end(&self) -> (at_end: bool)
        requires
            self.wf(),
        ensures
            at_end == crate::syntax::is_at_end(self.tokens(), self.cursor()),
    {
        self.peek().token_type == TokenType::EOF
    }

    fn check(&self, token_type: TokenType) -> (found: bool)
        requires
            self.wf(),
        ensures
            found == crate::syntax::check(self.tokens(), self.cursor(), token_type),
    {
        !self.is_at_end() && self.peek().token_type == token_type
    }

    fn advance(&mut self) -> (token: &'a Token)
        requires
            old(self).wf(),
        ensures
            final(self).follows(old(self)),
            final(self).cursor() == crate::syntax::advance(old(self).tokens(), old(self).cursor()),
            final(self).cursor().next_id == old(self).cursor().next_id,
            !crate::syntax::is_at_end(old(self).tokens(), old(self).cursor()) ==> token@
                == crate::syntax::peek(old(self).tokens(), old(self).cursor()),
    {
        let count = self.tokens.len();
        if !self.is_at_end() {
            self.current = self.current + 1;
            &self.tokens[self.current - 1]
        } else {
            &self.tokens[self.current]
        }
    }

    /// Reads the next token if it is of the kind `token_type`.
    fn match_(&mut self, token_type: TokenType) -> (found: bool)
        requires
            old(self).wf(),
        ensures
            final(self).follows(old(self)),
            found == crate::syntax::check(old(self).tokens(), old(self).cursor(), token_type),
            final(self).cursor() == if found {
                crate::syntax::advance(old(self).tokens(), old(self).cursor())
            } else {
                old(self).cursor()
            },
    {
        if self.check(token_type) {
            self.advance();
            true
        } else {
            false
        }
    }

    fn consume(&mut self, token_type: TokenType, message: &str) -> (result: Result<&'a Token, LoxError>)
        requires
            old(self).wf(),
        ensures
            final(self).follows(old(self)),
            final(self).cursor().next_id == old(self).cursor().next_id,
            result is Ok ==> final(self).cursor().current == old(self).cursor().current + 1,
            crate::syntax::consume(old(self).tokens(), old(self).cursor(), token_type, message@) == (
            Parsed {
                result: match result {
                    Ok(token) => Ok(token@),
                    Err(error) => Err(error@),
                },
                cursor: final(self).cursor(),
            }),
    {
        if self.check(token_type) {
            return Ok(self.advance());
        }
        Err(Parser::error(self.peek(), message))
    }

    fn next_id(&mut self) -> (id: usize)
        requires
            old(self).wf(),
            old(self).cursor().next_id < old(self).cursor().current,
        ensures
            final(self).wf(),
            final(self).tokens() == old(self).tokens(),
            id == old(self).cursor().next_id,
            final(self).cursor() == crate::syntax::numbered(old(self).cursor()),
    {
        let id = self.next_id;
        self.next_id = self.next_id + 1;
        id
    }

    fn primary(&mut self) -> (result: Result<Expression, LoxError>)
        requires
            old(self).wf(),
        ensures
            final(self).advanced(old(self), result),
            parsed(result, final(self).cursor()) == crate::syntax::primary(
                old(self).tokens(),
                old(self).cursor(),
            ),
        decreases left(old(self).tokens(), old(self).cursor()), 0nat,
    {
        if self.match_(TokenType::FALSE) {
            Ok(Expression::Literal(Literal::Boolean(false)))
        } else if self.match_(TokenType::TRUE) {
            Ok(Expression::Literal(Literal::Boolean(true)))
        } else if self.match_(TokenType::NIL) {
            Ok(Expression::Literal(Literal::Nil))
        } else if self.check(TokenType::NUMBER) || self.check(TokenType::STRING) {
            let token = self.advance();
            let literal = match &token.literal {
                Some(literal) => literal.clone(),
                None => Literal::Nil,
            };
            Ok(Expression::Literal(literal))
        } else if self.check(TokenType::SUPER) {
            let keyword = self.advance().clone();
            self.consume(TokenType::DOT, "Expect '.' after 'super'.")?;
            let method = self.consume(TokenType::IDENTIFIER, "Expect superclass method name.")?.clone();
            Ok(Expression::Super { id: self.next_id(), keyword, method })
        } else if self.check(TokenType::THIS) {
            let keyword = self.advance().clone();
            Ok(Expression::This { id: self.next_id(), keyword })
        } else if self.check(TokenType::IDENTIFIER) {
            let name = self.advance().clone();
            Ok(Expression::Variable { id: self.next_id(), name })
        } else if self.match_(TokenType::LEFT_PAREN) {
            let expr = self.expression()?;
            self.consume(TokenType::RIGHT_PAREN, "Expect ')' after expression.")?;
            Ok(Expression::Grouping(Box::new(expr)))
        } else {
            Err(Parser::error(self.peek(), EXPECT_EXPRESSION))
        }
    }

    /// Parses one expression: the result is that of the grammar function,
    /// and a success is a parse tree of the tokens read.
    pub fn expression(&mut self) -> (result: Result<Expression, LoxError>)
        requires
            old(self).wf(),
        ensures
            final(self).advanced(old(self), result),
            parsed(result, final(self).cursor()) == crate::syntax::expression(
                old(self).tokens(),
                old(self).cursor(),
            ),
            result matches Ok(expr) ==> crate::derivation::derives(
                old(self).tokens(),
                old(self).cursor(),
                final(self).cursor(),
                expr@,
                8,
            ) && crate::numbering::apart(
                crate::numbering::expression_ids(expr@),
                old(self).cursor().next_id,
                final(self).cursor().next_id,
            ),
        decreases left(old(self).tokens(), old(self).cursor()), 20nat,
    {
        let count = self.tokens.len();
        proof {
            crate::derivation::lemma_expression(self.tokens(), self.cursor());
            crate::numbering::lemma_expression(self.tokens(), self.cursor());
        }
        let expr = self.logic_or()?;
        if !self.check(TokenType::EQUAL) {
            return Ok(expr);
        }
        let equals = self.advance();
        let value = self.expression()?;
        match expr {
            Expression::Variable { id, name } => Ok(
                Expression::Assign { id: self.next_id(), name, value: Box::new(value) },
            ),
            Expression::Get { object, name } => Ok(
                Expression::SetProperty { object, name, value: Box::new(value) },
            ),
            _ => Err(Parser::error(equals, INVALID_ASSIGNMENT_TARGET)),
        }
    }

    fn logic_or(&mut self) -> (result: Result<Expression, LoxError>)
        requires
            old(self).wf(),
        ensures
            final(self).advanced(old(self), result),
            parsed(result, final(self).cursor()) == crate::syntax::binary(
                old(self).tokens(),
                old(self).cursor(),
                6,
            ),
        decreases left(old(self).tokens(), old(self).cursor()), 16nat,
    {
        self.binary_operation(6)
    }

    /// Whether the next token is an operator of the level `level`.
    fn check_operator(&self, level: usize) -> (found: bool)
        requires
            self.wf(),
        ensures
            found == (!crate::syntax::is_at_end(self.tokens(), self.cursor())
                && crate::syntax::operator_at(
                level as nat,
                crate::syntax::peek(self.tokens(), self.cursor()).token_type,
            )),
    {
        if self.is_at_end() {
            return false;
        }
        let kind = self.peek().token_type;
        if level == 6 {
            kind == TokenType::OR
        } else if level == 5 {
            kind == TokenType::AND
        } else if level == 4 {
            kind == TokenType::BANG_EQUAL || kind == TokenType::EQUAL_EQUAL
        } else if level == 3 {
            kind == TokenType::GREATER || kind == TokenType::GREATER_EQUAL || kind
                == TokenType::LESS || kind == TokenType::LESS_EQUAL
        } else if level == 2 {
            kind == TokenType::MINUS || kind == TokenType::PLUS
        } else if level == 1 {
            kind == TokenType::SLASH || kind == TokenType::STAR
        } else {
            false
        }
    }

    /// The binary operators of the level `level` and tighter.
    fn binary_operation(&mut self, level: usize) -> (result: Result<Expression, LoxError>)
        requires
            old(self).wf(),
            level <= 6,
        ensures
            final(self).advanced(old(self), result),
            parsed(result, final(self).cursor()) == crate::syntax::binary(
                old(self).tokens(),
                old(self).cursor(),
                level as nat,
            ),
        decreases left(old(self).tokens(), old(self).cursor()), 3 + 2 * level,
    {
        if level == 0 {
            return self.unary();
        }
        let mut expr = self.binary_operation(level - 1)?;
        let ghost mut bound = left(old(self).tokens(), old(self).cursor());
        while self.check_operator(level)
            invariant
                1 <= level <= 6,
                self.follows(old(self)),
                self.cursor().current > old(self).cursor().current,
                left(self.tokens(), self.cursor()) <= bound,
                bound <= left(old(self).tokens(), old(self).cursor()),
                crate::syntax::binary_rest(self.tokens(), self.cursor(), bound, level as nat, expr@)
                    == crate::syntax::binary(old(self).tokens(), old(self).cursor(), level as nat),
            decreases left(self.tokens(), self.cursor()),
        {
            let op = self.advance().clone();
            proof {
                bound = left(self.tokens(), self.cursor());
            }
            let right = match self.binary_operation(level - 1) {
                Ok(right) => right,
                Err(error) => {
                    return Err(error);
                },
            };
            expr = if level >= 5 {
                Expression::Logical { left: Box::new(expr), op, right: Box::new(right) }
            } else {
                Expression::Binary { left: Box::new(expr), op, right: Box::new(right) }
            };
        }
        Ok(expr)
    }

    fn unary(&mut self) -> (result: Result<Expression, LoxError>)
        requires
            old(self).wf(),
        ensures
            final(self).advanced(old(self), result),
            parsed(result, final(self).cursor()) == crate::syntax::unary(
                old(self).tokens(),
                old(self).cursor(),
            ),
        decreases left(old(self).tokens(), old(self).cursor()), 2nat,
    {
        if self.check(TokenType::BANG) || self.check(TokenType::MINUS) {
            let op = self.advance().clone();
            let right = self.unary()?;
            return Ok(Expression::Unary { op, right: Box::new(right) });
        }
        self.call()
    }

    fn call(&mut self) -> (result: Result<Expression, LoxError>)
        requires
            old(self).wf(),
        ensures
            final(self).advanced(old(self), result),
            parsed(result, final(self).cursor()) == crate::syntax::call(
                old(self).tokens(),
                old(self).cursor(),
            ),
        decreases left(old(self).tokens(), old(self).cursor()), 1nat,
    {
        let mut expression = self.primary()?;
        let ghost mut bound = left(old(self).tokens(), old(self).cursor());
        loop
            invariant
                self.follows(old(self)),
                self.cursor().current > old(self).cursor().current,
                left(self.tokens(), self.cursor()) <= bound,
                bound <= left(old(self).tokens(), old(self).cursor()),
                crate::syntax::call_rest(self.tokens(), self.cursor(), bound, expression@)
                    == crate::syntax::call(old(self).tokens(), old(self).cursor()),
            decreases left(self.tokens(), self.cursor()),
        {
            if self.match_(TokenType::LEFT_PAREN) {
                proof {
                    bound = left(self.tokens(), self.cursor());
                }
                expression = match self.finish_call(expression) {
                    Ok(made) => made,
                    Err(error) => {
                        return Err(error);
                    },
                };
            } else if self.match_(TokenType::DOT) {
                proof {
                    bound = left(self.tokens(), self.cursor());
                }
                let name = match self.consume(
                    TokenType::IDENTIFIER,
                    "Expect property name after '.'",
                ) {
                    Ok(name) => name.clone(),
                    Err(error) => {
                        return Err(error);
                    },
                };
                expression = Expression::Get { object: Box::new(expression), name };
            } else {
                return Ok(expression);
            }
        }
    }

    fn finish_call(&mut self, callee: Expression) -> (result: Result<Expression, LoxError>)
        requires
            old(self).wf(),
        ensures
            final(self).follows(old(self)),
            parsed(result, final(self).cursor()) == crate::syntax::finish_call(
                old(self).tokens(),
                old(self).cursor(),
                callee@,
            ),
        decreases left(old(self).tokens(), old(self).cursor()), 23nat,
    {
        let mut arguments: Vec<Expression> = Vec::new();
        assert(expressions_view(arguments@) =~= Seq::<ExpressionView>::empty());
        if !self.check(TokenType::RIGHT_PAREN) {
            loop
                invariant_except_break
                    crate::syntax::arguments(
                        self.tokens(),
                        self.cursor(),
                        expressions_view(arguments@),
                    ) == crate::syntax::arguments(
                        old(self).tokens(),
                        old(self).cursor(),
                        Seq::<ExpressionView>::empty(),
                    ),
                invariant
                    self.follows(old(self)),
                    !crate::syntax::check(
                        old(self).tokens(),
                        old(self).cursor(),
                        TokenType::RIGHT_PAREN,
                    ),
                ensures
                    crate::syntax::done(expressions_view(arguments@), self.cursor())
                        == crate::syntax::arguments(
                        old(self).tokens(),
                        old(self).cursor(),
                        Seq::<ExpressionView>::empty(),
                    ),
                decreases left(self.tokens(), self.cursor()),
            {
                if arguments.len() >= MAX_ARITY {
                    return Err(Parser::error(self.peek(), TOO_MANY_ARGUMENTS));
                }
                let argument = match self.expression() {
                    Ok(argument) => argument,
                    Err(error) => {
                        return Err(error);
                    },
                };
                let ghost before = expressions_view(arguments@);
                arguments.push(argument);
                assert(expressions_view(arguments@) =~= before.push(argument@));
                if !self.match_(TokenType::COMMA) {
                    break ;
                }
            }
        }
        let paren = self.consume(TokenType::RIGHT_PAREN, "Expect ')' after arguments.")?;
        let ghost found = expressions_view(arguments@);
        let made = Expression::Call { callee: Box::new(callee), paren_line: paren.line, arguments };
        assert(made@.arrow_Call_arguments() =~= found);
        Ok(made)
    }

    /// Parses a whole program: the declarations up to the end of the tokens.
    /// The first error ends the parse. In a program that is parsed, no two
    /// nodes have the same id.
    pub fn parse(&mut self) -> (result: Result<Vec<Statement>, LoxError>)
        requires
            old(self).wf(),
        ensures
            final(self).follows(old(self)),
            parsed_statements(result, final(self).cursor()) == crate::syntax::program(
                old(self).tokens(),
                old(self).cursor(),
                Seq::<StatementView>::empty(),
            ),
            result matches Ok(statements) ==> crate::numbering::apart(
                crate::numbering::statements_ids(statements_view(statements@), statements@.len()),
                old(self).cursor().next_id,
                final(self).cursor().next_id,
            ),
    {
        let count = self.tokens.len();
        proof {
            crate::numbering::lemma_program(self.tokens(), self.cursor());
        }
        let mut statements: Vec<Statement> = Vec::new();
        assert(statements_view(statements@) =~= Seq::<StatementView>::empty());
        while !self.is_at_end()
            invariant
                self.follows(old(self)),
                crate::syntax::program(self.tokens(), self.cursor(), statements_view(statements@))
                    == crate::syntax::program(
                    old(self).tokens(),
                    old(self).cursor(),
                    Seq::<StatementView>::empty(),
                ),
            decreases left(self.tokens(), self.cursor()),
        {
            let statement = match self.declaration() {
                Ok(statement) => statement,
                Err(error) => {
                    return Err(error);
                },
            };
            let ghost before = statements_view(statements@);
            statements.push(statement);
            assert(statements_view(statements@) =~= before.push(statement@));
        }
        Ok(statements)
    }

    fn declaration(&mut self) -> (result: Result<Statement, LoxError>)
        requires
            old(self).wf(),
        ensures
            final(self).advanced(old(self), result),
            parsed(result, final(self).cursor()) == crate::syntax::declaration(
                old(self).tokens(),
                old(self).cursor(),
            ),
        decreases left(old(self).tokens(), old(self).cursor()), 40nat,
    {
        if self.match_(TokenType::CLASS) {
            self.class_declaration()
        } else if self.match_(TokenType::FUN) {
            Ok(Statement::Function(self.function("function")?))
        } else if self.match_(TokenType::VAR) {
            self.variable()
        } else {
            self.statement()
        }
    }

    fn class_declaration(&mut self) -> (result: Result<Statement, LoxError>)
        requires
            old(self).wf(),
        ensures
            final(self).advanced(old(self), result),
            parsed(result, final(self).cursor()) == crate::syntax::class_declaration(
                old(self).tokens(),
                old(self).cursor(),
            ),
        decreases left(old(self).tokens(), old(self).cursor()), 35nat,
    {
        let name = self.consume(TokenType::IDENTIFIER, "Expect class name.")?.clone();
        let superclass = if self.match_(TokenType::LESS) {
            let parent = self.consume(TokenType::IDENTIFIER, "Expect superclass name.")?.clone();
            Some(Expression::Variable { id: self.next_id(), name: parent })
        } else {
            None
        };
        self.consume(TokenType::LEFT_BRACE, "Expect '{' before class body.")?;
        let methods = self.methods()?;
        self.consume(TokenType::RIGHT_BRACE, "Expect '}' after class body.")?;
        let ghost found = functions_view(methods@);
        let made = Statement::Class { name, superclass, methods };
        assert(made@.arrow_Class_methods() =~= found);
        Ok(made)
    }

    fn function(&mut self, kind: &str) -> (result: Result<Function, LoxError>)
        requires
            old(self).wf(),
        ensures
            final(self).advanced(old(self), result),
            parsed(result, final(self).cursor()) == crate::syntax::function(
                old(self).tokens(),
                old(self).cursor(),
                kind@,
            ),
        decreases left(old(self).tokens(), old(self).cursor()), 33nat,
    {
        let mut expect_name = String::from_str("Expect ");
        expect_name.append(kind);
        expect_name.append(" name.");
        let name = self.consume(TokenType::IDENTIFIER, expect_name.as_str())?.clone();
        let mut expect_paren = String::from_str("Expect '(' after ");
        expect_paren.append(kind);
        expect_paren.append(" name.");
        self.consume(TokenType::LEFT_PAREN, expect_paren.as_str())?;
        let params = if self.check(TokenType::RIGHT_PAREN) {
            let params: Vec<Token> = Vec::new();
            assert(tokens_view(params@) =~= Seq::<TokenView>::empty());
            params
        } else {
            self.parameters()?
        };
        self.consume(TokenType::RIGHT_PAREN, "Expect ')' after parameters.")?;
        let mut expect_body = String::from_str("Expect '{' before ");
        expect_body.append(kind);
        expect_body.append(" body.");
        self.consume(TokenType::LEFT_BRACE, expect_body.as_str())?;
        let body = self.block()?;
        let ghost params_view = tokens_view(params@);
        let ghost body_view = statements_view(body@);
        let made = Function { name, params, body };
        assert(made@.params =~= params_view);
        assert(made@.body =~= body_view);
        Ok(made)
    }

    /// The methods of a class body, up to its closing brace.
    fn methods(&mut self) -> (result: Result<Vec<Function>, LoxError>)
        requires
            old(self).wf(),
        ensures
            final(self).follows(old(self)),
            crate::syntax::methods(
                old(self).tokens(),
                old(self).cursor(),
                Seq::<FunctionView>::empty(),
            ) == (Parsed {
                result: match result {
                    Ok(methods) => Ok(functions_view(methods@)),
                    Err(error) => Err(error@),
                },
                cursor: final(self).cursor(),
            }),
        decreases left(old(self).tokens(), old(self).cursor()), 34nat,
    {
        let mut methods: Vec<Function> = Vec::new();
        assert(functions_view(methods@) =~= Seq::<FunctionView>::empty());
        while !self.check(TokenType::RIGHT_BRACE) && !self.is_at_end()
            invariant
                self.follows(old(self)),
                crate::syntax::methods(self.tokens(), self.cursor(), functions_view(methods@))
                    == crate::syntax::methods(
                    old(self).tokens(),
                    old(self).cursor(),
                    Seq::<FunctionView>::empty(),
                ),
            decreases left(self.tokens(), self.cursor()),
        {
            let method = match self.function("method") {
                Ok(method) => method,
                Err(error) => {
                    return Err(error);
                },
            };
            let ghost before = functions_view(methods@);
            methods.push(method);
            assert(functions_view(methods@) =~= before.push(method@));
        }
        Ok(methods)
    }

    /// The parameters of a function, up to its closing parenthesis.
    fn parameters(&mut self) -> (result: Result<Vec<Token>, LoxError>)
        requires
            old(self).wf(),
        ensures
            final(self).follows(old(self)),
            final(self).cursor().next_id == old(self).cursor().next_id,
            crate::syntax::parameters(
                old(self).tokens(),
                old(self).cursor(),
                Seq::<TokenView>::empty(),
            ) == (Parsed {
                result: match result {
                    Ok(params) => Ok(tokens_view(params@)),
                    Err(error) => Err(error@),
                },
                cursor: final(self).cursor(),
            }),
    {
        let mut params: Vec<Token> = Vec::new();
        assert(tokens_view(params@) =~= Seq::<TokenView>::empty());
        loop
            invariant_except_break
                crate::syntax::parameters(self.tokens(), self.cursor(), tokens_view(params@))
                    == crate::syntax::parameters(
                    old(self).tokens(),
                    old(self).cursor(),
                    Seq::<TokenView>::empty(),
                ),
            invariant
                self.follows(old(self)),
                self.cursor().next_id == old(self).cursor().next_id,
            ensures
                crate::syntax::done(tokens_view(params@), self.cursor())
                    == crate::syntax::parameters(
                    old(self).tokens(),
                    old(self).cursor(),
                    Seq::<TokenView>::empty(),
                ),
            decreases left(self.tokens(), self.cursor()),
        {
            if params.len() >= MAX_ARITY {
                return Err(Parser::error(self.peek(), TOO_MANY_PARAMETERS));
            }
            let param = match self.consume(TokenType::IDENTIFIER, "Expect parameter name.") {
                Ok(param) => param.clone(),
                Err(error) => {
                    return Err(error);
                },
            };
            let ghost before = tokens_view(params@);
            params.push(param);
            assert(tokens_view(params@) =~= before.push(param@));
            if !self.match_(TokenType::COMMA) {
                break ;
            }
        }
        Ok(params)
    }

    fn variable(&mut self) -> (result: Result<Statement, LoxError>)
        requires
            old(self).wf(),
        ensures
            final(self).advanced(old(self), result),
            parsed(result, final(self).cursor()) == crate::syntax::variable(
                old(self).tokens(),
                old(self).cursor(),
            ),
        decreases left(old(self).tokens(), old(self).cursor()), 30nat,
    {
        let name = self.consume(TokenType::IDENTIFIER, "Expect variable name.")?.clone();
        let init = if self.match_(TokenType::EQUAL) {
            Some(self.expression()?)
        } else {
            None
        };
        self.consume(TokenType::SEMICOLON, "Expect ';' after variable declaration.")?;
        Ok(Statement::Variable { name, init })
    }

    fn expression_statement(&mut self) -> (result: Result<Statement, LoxError>)
        requires
            old(self).wf(),
        ensures
            final(self).advanced(old(self), result),
            parsed(result, final(self).cursor()) == crate::syntax::expression_statement(
                old(self).tokens(),
                old(self).cursor(),
            ),
        decreases left(old(self).tokens(), old(self).cursor()), 30nat,
    {
        let expression = self.expression()?;
        self.consume(TokenType::SEMICOLON, "Expect ';' after expression.")?;
        Ok(Statement::Expression(expression))
    }

    fn print_statement(&mut self) -> (result: Result<Statement, LoxError>)
        requires
            old(self).wf(),
        ensures
            final(self).advanced(old(self), result),
            parsed(result, final(self).cursor()) == crate::syntax::print_statement(
                old(self).tokens(),
                old(self).cursor(),
            ),
        decreases left(old(self).tokens(), old(self).cursor()), 30nat,
    {
        let expression = self.expression()?;
        self.consume(TokenType::SEMICOLON, "Expect ';' after value.")?;
        Ok(Statement::Print(expression))
    }

    fn statement(&mut self) -> (result: Result<Statement, LoxError>)
        requires
            old(self).wf(),
        ensures
            final(self).advanced(old(self), result),
            parsed(result, final(self).cursor()) == crate::syntax::statement(
                old(self).tokens(),
                old(self).cursor(),
            ),
        decreases left(old(self).tokens(), old(self).cursor()), 39nat,
    {
        if self.match_(TokenType::FOR) {
            self.for_statement()
        } else if self.match_(TokenType::IF) {
            self.if_statement()
        } else if self.match_(TokenType::PRINT) {
            self.print_statement()
        } else if self.check(TokenType::RETURN) {
            let keyword = self.advance().clone();
            self.return_statement(keyword)
        } else if self.match_(TokenType::WHILE) {
            self.while_statement()
        } else if self.match_(TokenType::LEFT_BRACE) {
            Ok(Statement::Block(self.block()?))
        } else {
            self.expression_statement()
        }
    }

    fn for_statement(&mut self) -> (result: Result<Statement, LoxError>)
        requires
            old(self).wf(),
        ensures
            final(self).advanced(old(self), result),
            parsed(result, final(self).cursor()) == crate::syntax::for_statement(
                old(self).tokens(),
                old(self).cursor(),
            ),
        decreases left(old(self).tokens(), old(self).cursor()), 30nat,
    {
        let ghost bound = left(self.tokens(), self.cursor());
        self.consume(TokenType::LEFT_PAREN, "Expect '(' after 'for'.")?;
        let initializer = if self.match_(TokenType::SEMICOLON) {
            None
        } else if self.match_(TokenType::VAR) {
            Some(self.variable()?)
        } else {
            Some(self.expression_statement()?)
        };
        self.for_condition(Ghost(bound), initializer)
    }

    /// The rest of a `for` after its initializer.
    fn for_condition(&mut self, Ghost(bound): Ghost<nat>, initializer: Option<Statement>) -> (result:
        Result<Statement, LoxError>)
        requires
            old(self).wf(),
            left(old(self).tokens(), old(self).cursor()) < bound,
        ensures
            final(self).advanced(old(self), result),
            parsed(result, final(self).cursor()) == crate::syntax::for_condition(
                old(self).tokens(),
                old(self).cursor(),
                bound,
                optional_statement_view(initializer),
            ),
        decreases bound, 3nat,
    {
        let condition = if !self.check(TokenType::SEMICOLON) {
            self.expression()?
        } else {
            Expression::Literal(Literal::Boolean(true))
        };
        self.for_increment(Ghost(bound), initializer, condition)
    }

    /// The rest of a `for` after its condition.
    fn for_increment(
        &mut self,
        Ghost(bound): Ghost<nat>,
        initializer: Option<Statement>,
        condition: Expression,
    ) -> (result: Result<Statement, LoxError>)
        requires
            old(self).wf(),
            left(old(self).tokens(), old(self).cursor()) < bound,
        ensures
            final(self).advanced(old(self), result),
            parsed(result, final(self).cursor()) == crate::syntax::for_increment(
                old(self).tokens(),
                old(self).cursor(),
                bound,
                optional_statement_view(initializer),
                condition@,
            ),
        decreases bound, 2nat,
    {
        self.consume(TokenType::SEMICOLON, "Expect ';' after loop condition.")?;
        let increment = if !self.check(TokenType::RIGHT_PAREN) {
            Some(self.expression()?)
        } else {
            None
        };
        self.for_body(Ghost(bound), initializer, condition, increment)
    }

    /// The rest of a `for` after its increment: the body, and the `while`
    /// loop that the whole stands for.
    fn for_body(
        &mut self,
        Ghost(bound): Ghost<nat>,
        initializer: Option<Statement>,
        condition: Expression,
        increment: Option<Expression>,
    ) -> (result: Result<Statement, LoxError>)
        requires
            old(self).wf(),
            left(old(self).tokens(), old(self).cursor()) < bound,
        ensures
            final(self).advanced(old(self), result),
            parsed(result, final(self).cursor()) == crate::syntax::for_body(
                old(self).tokens(),
                old(self).cursor(),
                bound,
                optional_statement_view(initializer),
                condition@,
                crate::grammar::optional_expression_view(increment),
            ),
        decreases bound, 1nat,
    {
        self.consume(TokenType::RIGHT_PAREN, "Expect ')' after for clauses.")?;
        let body = self.statement()?;
        Ok(Parser::desugar(initializer, condition, increment, body))
    }

    /// The `while` loop that a `for` loop stands for.
    fn desugar(
        initializer: Option<Statement>,
        condition: Expression,
        increment: Option<Expression>,
        body: Statement,
    ) -> (looped: Statement)
        ensures
            looped@ == crate::syntax::desugared(
                optional_statement_view(initializer),
                condition@,
                crate::grammar::optional_expression_view(increment),
                body@,
            ),
    {
        let ghost plain = body@;
        let ghost stepped_view = match crate::grammar::optional_expression_view(increment) {
            Some(increment) => StatementView::Block(
                seq![plain, StatementView::Expression(increment)],
            ),
            None => plain,
        };
        let stepped = match increment {
            Some(increment) => {
                let mut both: Vec<Statement> = Vec::new();
                both.push(body);
                both.push(Statement::Expression(increment));
                assert(statements_view(both@) =~= seq![
                    plain,
                    StatementView::Expression(increment@),
                ]);
                Statement::Block(both)
            },
            None => body,
        };
        assert(stepped@ == stepped_view);
        let looped = Statement::While { condition, body: Box::new(stepped) };
        let ghost inner = StatementView::While { condition: condition@, body: Box::new(stepped_view) };
        assert(looped@ == inner);
        match initializer {
            Some(initializer) => {
                let mut both: Vec<Statement> = Vec::new();
                both.push(initializer);
                both.push(looped);
                assert(statements_view(both@) =~= seq![initializer@, inner]);
                let made = Statement::Block(both);
                assert(made@ == StatementView::Block(seq![initializer@, inner]));
                made
            },
            None => looped,
        }
    }

    fn if_statement(&mut self) -> (result: Result<Statement, LoxError>)
        requires
            old(self).wf(),
        ensures
            final(self).advanced(old(self), result),
            parsed(result, final(self).cursor()) == crate::syntax::if_statement(
                old(self).tokens(),
                old(self).cursor(),
            ),
        decreases left(old(self).tokens(), old(self).cursor()), 30nat,
    {
        self.consume(TokenType::LEFT_PAREN, "Expect '(' after 'if'.")?;
        let condition = self.expression()?;
        self.consume(TokenType::RIGHT_PAREN, "Expect ')' after if condition.")?;
        let then_branch = Box::new(self.statement()?);
        let else_branch = if self.match_(TokenType::ELSE) {
            Some(Box::new(self.statement()?))
        } else {
            None
        };
        Ok(Statement::If { condition, then_branch, else_branch })
    }

    fn return_statement(&mut self, keyword: Token) -> (result: Result<Statement, LoxError>)
        requires
            old(self).wf(),
        ensures
            final(self).advanced(old(self), result),
            parsed(result, final(self).cursor()) == crate::syntax::return_statement(
                old(self).tokens(),
                old(self).cursor(),
                keyword@,
            ),
        decreases left(old(self).tokens(), old(self).cursor()), 30nat,
    {
        let value = if !self.check(TokenType::SEMICOLON) {
            Some(self.expression()?)
        } else {
            None
        };
        self.consume(TokenType::SEMICOLON, "Expect ';' after return value.")?;
        Ok(Statement::Return { keyword, value })
    }

    fn while_statement(&mut self) -> (result: Result<Statement, LoxError>)
        requires
            old(self).wf(),
        ensures
            final(self).advanced(old(self), result),
            parsed(result, final(self).cursor()) == crate::syntax::while_statement(
                old(self).tokens(),
                old(self).cursor(),
            ),
        decreases left(old(self).tokens(), old(self).cursor()), 30nat,
    {
        self.consume(TokenType::LEFT_PAREN, "Expect '(' after 'while'.")?;
        let condition = self.expression()?;
        self.consume(TokenType::RIGHT_PAREN, "Expect ')' after condition.")?;
        let body = Box::new(self.statement()?);
        Ok(Statement::While { condition, body })
    }

    fn block(&mut self) -> (result: Result<Vec<Statement>, LoxError>)
        requires
            old(self).wf(),
        ensures
            final(self).advanced(old(self), result),
            parsed_statements(result, final(self).cursor()) == crate::syntax::block(
                old(self).tokens(),
                old(self).cursor(),
            ),
        decreases left(old(self).tokens(), old(self).cursor()), 42nat,
    {
        let mut statements: Vec<Statement> = Vec::new();
        assert(statements_view(statements@) =~= Seq::<StatementView>::empty());
        while !self.check(TokenType::RIGHT_BRACE) && !self.is_at_end()
            invariant
                self.follows(old(self)),
                crate::syntax::block_items(
                    self.tokens(),
                    self.cursor(),
                    statements_view(statements@),
                ) == crate::syntax::block_items(
                    old(self).tokens(),
                    old(self).cursor(),
                    Seq::<StatementView>::empty(),
                ),
            decreases left(self.tokens(), self.cursor()),
        {
            let statement = match self.declaration() {
                Ok(statement) => statement,
                Err(error) => {
                    return Err(error);
                },
            };
            let ghost before = statements_view(statements@);
            statements.push(statement);
            assert(statements_view(statements@) =~= before.push(statement@));
        }
        self.consume(TokenType::RIGHT_BRACE, "Expect '}' after block.")?;
        Ok(statements)
    }
}

} // verus!
