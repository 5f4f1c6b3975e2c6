//! Tokens and the syntax tree.

use vstd::prelude::*;
use crate::strings::str_eq;

verus! {

/// The kinds of token.
#[derive(Debug, Clone, Copy, PartialEq, Eq, Hash, Structural)]
#[allow(non_camel_case_types, clippy::upper_case_acronyms)]
pub enum TokenType {
    LEFT_PAREN,
    RIGHT_PAREN,
    LEFT_BRACE,
    RIGHT_BRACE,
    COMMA,
    DOT,
    MINUS,
    PLUS,
    SEMICOLON,
    SLASH,
    STAR,
    EQUAL,
    EQUAL_EQUAL,
    BANG,
    BANG_EQUAL,
    LESS,
    LESS_EQUAL,
    GREATER,
    GREATER_EQUAL,
    IDENTIFIER,
    STRING,
    NUMBER,
    AND,
    CLASS,
    ELSE,
    FALSE,
    FOR,
    FUN,
    IF,
    NIL,
    OR,
    PRINT,
    RETURN,
    SUPER,
    THIS,
    TRUE,
    VAR,
    WHILE,
    EOF,
}

/// The kind of token that the word `word` is: its keyword, or an identifier.
pub open spec fn keyword_type(word: Seq<char>) -> TokenType {
    if word == "and"@ {
        TokenType::AND
    } else if word == "class"@ {
        TokenType::CLASS
    } else if word == "else"@ {
        TokenType::ELSE
    } else if word == "false"@ {
        TokenType::FALSE
    } else if word == "for"@ {
        TokenType::FOR
    } else if word == "fun"@ {
        TokenType::FUN
    } else if word == "if"@ {
        TokenType::IF
    } else if word == "nil"@ {
        TokenType::NIL
    } else if word == "or"@ {
        TokenType::OR
    } else if word == "print"@ {
        TokenType::PRINT
    } else if word == "return"@ {
        TokenType::RETURN
    } else if word == "super"@ {
        TokenType::SUPER
    } else if word == "this"@ {
        TokenType::THIS
    } else if word == "true"@ {
        TokenType::TRUE
    } else if word == "var"@ {
        TokenType::VAR
    } else if word == "while"@ {
        TokenType::WHILE
    } else {
        TokenType::IDENTIFIER
    }
}

/// The kind of token that `identifier` is: its keyword, or an identifier.
pub fn get_token_type(identifier: &str) -> (token_type: TokenType)
    ensures
        token_type == keyword_type(identifier@),
{
    TokenType::get_token_type(identifier)
}

impl TokenType {
    /// The kind of token that `identifier` is: its keyword, or an identifier.
    pub fn get_token_type(identifier: &str) -> (token_type: Self)
        ensures
            token_type == keyword_type(identifier@),
    {
        if str_eq(identifier, "and") {
            TokenType::AND
        } else if str_eq(identifier, "class") {
            TokenType::CLASS
        } else if str_eq(identifier, "else") {
            TokenType::ELSE
        } else if str_eq(identifier, "false") {
            TokenType::FALSE
        } else if str_eq(identifier, "for") {
            TokenType::FOR
        } else if str_eq(identifier, "fun") {
            TokenType::FUN
        } else if str_eq(identifier, "if") {
            TokenType::IF
        } else if str_eq(identifier, "nil") {
            TokenType::NIL
        } else if str_eq(identifier, "or") {
            TokenType::OR
        } else if str_eq(identifier, "print") {
            TokenType::PRINT
        } else if str_eq(identifier, "return") {
            TokenType::RETURN
        } else if str_eq(identifier, "super") {
            TokenType::SUPER
        } else if str_eq(identifier, "this") {
            TokenType::THIS
        } else if str_eq(identifier, "true") {
            TokenType::TRUE
        } else if str_eq(identifier, "var") {
            TokenType::VAR
        } else if str_eq(identifier, "while") {
            TokenType::WHILE
        } else {
            TokenType::IDENTIFIER
        }
    }

    /// The name of the kind, as a token listing shows it.
    pub open spec fn spec_name(self) -> Seq<char> {
        match self {
            TokenType::LEFT_PAREN => "LEFT_PAREN"@,
            TokenType::RIGHT_PAREN => "RIGHT_PAREN"@,
            TokenType::LEFT_BRACE => "LEFT_BRACE"@,
            TokenType::RIGHT_BRACE => "RIGHT_BRACE"@,
            TokenType::COMMA => "COMMA"@,
            TokenType::DOT => "DOT"@,
            TokenType::MINUS => "MINUS"@,
            TokenType::PLUS => "PLUS"@,
            TokenType::SEMICOLON => "SEMICOLON"@,
            TokenType::SLASH => "SLASH"@,
            TokenType::STAR => "STAR"@,
            TokenType::EQUAL => "EQUAL"@,
            TokenType::EQUAL_EQUAL => "EQUAL_EQUAL"@,
            TokenType::BANG => "BANG"@,
            TokenType::BANG_EQUAL => "BANG_EQUAL"@,
            TokenType::LESS => "LESS"@,
            TokenType::LESS_EQUAL => "LESS_EQUAL"@,
            TokenType::GREATER => "GREATER"@,
            TokenType::GREATER_EQUAL => "GREATER_EQUAL"@,
            TokenType::IDENTIFIER => "IDENTIFIER"@,
            TokenType::STRING => "STRING"@,
            TokenType::NUMBER => "NUMBER"@,
            TokenType::AND => "AND"@,
            TokenType::CLASS => "CLASS"@,
            TokenType::ELSE => "ELSE"@,
            TokenType::FALSE => "FALSE"@,
            TokenType::FOR => "FOR"@,
            TokenType::FUN => "FUN"@,
            TokenType::IF => "IF"@,
            TokenType::NIL => "NIL"@,
            TokenType::OR => "OR"@,
            TokenType::PRINT => "PRINT"@,
            TokenType::RETURN => "RETURN"@,
            TokenType::SUPER => "SUPER"@,
            TokenType::THIS => "THIS"@,
            TokenType::TRUE => "TRUE"@,
            TokenType::VAR => "VAR"@,
            TokenType::WHILE => "WHILE"@,
            TokenType::EOF => "EOF"@,
        }
    }

    /// The name of the kind, as a token listing shows it.
    pub fn name(&self) -> (name: &'static str)
        ensures
            name@ == self.spec_name(),
    {
        match self {
            TokenType::LEFT_PAREN => "LEFT_PAREN",
            TokenType::RIGHT_PAREN => "RIGHT_PAREN",
            TokenType::LEFT_BRACE => "LEFT_BRACE",
            TokenType::RIGHT_BRACE => "RIGHT_BRACE",
            TokenType::COMMA => "COMMA",
            TokenType::DOT => "DOT",
            TokenType::MINUS => "MINUS",
            TokenType::PLUS => "PLUS",
            TokenType::SEMICOLON => "SEMICOLON",
            TokenType::SLASH => "SLASH",
            TokenType::STAR => "STAR",
            TokenType::EQUAL => "EQUAL",
            TokenType::EQUAL_EQUAL => "EQUAL_EQUAL",
            TokenType::BANG => "BANG",
            TokenType::BANG_EQUAL => "BANG_EQUAL",
            TokenType::LESS => "LESS",
            TokenType::LESS_EQUAL => "LESS_EQUAL",
            TokenType::GREATER => "GREATER",
            TokenType::GREATER_EQUAL => "GREATER_EQUAL",
            TokenType::IDENTIFIER => "IDENTIFIER",
            TokenType::STRING => "STRING",
            TokenType::NUMBER => "NUMBER",
            TokenType::AND => "AND",
            TokenType::CLASS => "CLASS",
            TokenType::ELSE => "ELSE",
            TokenType::FALSE => "FALSE",
            TokenType::FOR => "FOR",
            TokenType::FUN => "FUN",
            TokenType::IF => "IF",
            TokenType::NIL => "NIL",
            TokenType::OR => "OR",
            TokenType::PRINT => "PRINT",
            TokenType::RETURN => "RETURN",
            TokenType::SUPER => "SUPER",
            TokenType::THIS => "THIS",
            TokenType::TRUE => "TRUE",
            TokenType::VAR => "VAR",
            TokenType::WHILE => "WHILE",
            TokenType::EOF => "EOF",
        }
    }
}

/// A constant written in the source text.
///
/// A number is kept as its decimal numeral, digits with an optional
/// fraction; the interpreter asks its caller for the double nearest to it.
#[derive(Debug, PartialEq)]
pub enum Literal {
    Nil,
    Boolean(bool),
    String(String),
    Number(String),
}

/// The mathematical content of a [`Literal`].
pub enum LiteralView {
    Nil,
    Boolean(bool),
    String(Seq<char>),
    Number(Seq<char>),
}

impl View for Literal {
    type V = LiteralView;

    open spec fn view(&self) -> LiteralView {
        match self {
            Literal::Nil => LiteralView::Nil,
            Literal::Boolean(b) => LiteralView::Boolean(*b),
            Literal::String(s) => LiteralView::String(s@),
            Literal::Number(numeral) => LiteralView::Number(numeral@),
        }
    }
}

impl Clone for Literal {
    fn clone(&self) -> (copy: Self)
        ensures
            copy == *self,
    {
        match self {
            Literal::Nil => Literal::Nil,
            Literal::Boolean(b) => Literal::Boolean(*b),
            Literal::String(s) => Literal::String(s.clone()),
            Literal::Number(numeral) => Literal::Number(numeral.clone()),
        }
    }
}

impl Literal {
    /// Whether the constant counts as true: everything but `nil` and `false`.
    pub fn is_truthy(&self) -> (truthy: bool)
        ensures
            truthy == !(*self is Nil || *self == Literal::Boolean(false)),
    {
        match self {
            Literal::Boolean(b) => *b,
            Literal::Nil => false,
            _ => true,
        }
    }
}

/// One token of the source text.
#[derive(Debug, PartialEq)]
pub struct Token {
    pub token_type: TokenType,
    /// The exact slice of the source text.
    pub lexeme: String,
    /// Present on `NUMBER` and `STRING` tokens only.
    pub literal: Option<Literal>,
    /// The line of the source text, counted from one.
    pub line: usize,
}

/// The mathematical content of a [`Token`].
pub struct TokenView {
    pub token_type: TokenType,
    pub lexeme: Seq<char>,
    pub literal: Option<LiteralView>,
    pub line: usize,
}

impl View for Token {
    type V = TokenView;

    open spec fn view(&self) -> TokenView {
        TokenView {
            token_type: self.token_type,
            lexeme: self.lexeme@,
            literal: match self.literal {
                Some(literal) => Some(literal@),
                None => None,
            },
            line: self.line,
        }
    }
}

impl Token {
    /// The token of that kind, lexeme, literal and line.
    pub fn new(token_type: TokenType, lexeme: String, literal: Option<Literal>, line: usize) -> (token:
        Token)
        ensures
            token == (Token { token_type, lexeme, literal, line }),
    {
        Token { token_type, lexeme, literal, line }
    }
}

impl Clone for Token {
    fn clone(&self) -> (copy: Self)
        ensures
            copy == *self,
    {
        Token {
            token_type: self.token_type,
            lexeme: self.lexeme.clone(),
            literal: match &self.literal {
                Some(literal) => Some(literal.clone()),
                None => None,
            },
            line: self.line,
        }
    }
}

/// An expression of the syntax tree.
///
/// The nodes that the resolver may bind (`Variable`, `Assign`, `This` and
/// `Super`) carry an id that no other node of the program carries.
#[derive(Debug, PartialEq)]
pub enum Expression {
    Assign { id: usize, name: Token, value: Box<Expression> },
    Binary { left: Box<Expression>, op: Token, right: Box<Expression> },
    Call { callee: Box<Expression>, paren_line: usize, arguments: Vec<Expression> },
    Get { object: Box<Expression>, name: Token },
    Grouping(Box<Expression>),
    Literal(Literal),
    Logical { left: Box<Expression>, op: Token, right: Box<Expression> },
    SetProperty { object: Box<Expression>, name: Token, value: Box<Expression> },
    Super { id: usize, keyword: Token, method: Token },
    This { id: usize, keyword: Token },
    Unary { op: Token, right: Box<Expression> },
    Variable { id: usize, name: Token },
}

/// A function or method declaration.
#[derive(Debug, PartialEq)]
pub struct Function {
    pub name: Token,
    pub params: Vec<Token>,
    pub body: Vec<Statement>,
}

/// A statement of the syntax tree.
#[derive(Debug, PartialEq)]
pub enum Statement {
    Block(Vec<Statement>),
    Class { name: Token, superclass: Option<Expression>, methods: Vec<Function> },
    Expression(Expression),
    Function(Function),
    If { condition: Expression, then_branch: Box<Statement>, else_branch: Option<Box<Statement>> },
    Print(Expression),
    Return { keyword: Token, value: Option<Expression> },
    Variable { name: Token, init: Option<Expression> },
    While { condition: Expression, body: Box<Statement> },
}

/// The mathematical content of an [`Expression`].
pub enum ExpressionView {
    Assign { id: usize, name: TokenView, value: Box<ExpressionView> },
    Binary { left: Box<ExpressionView>, op: TokenView, right: Box<ExpressionView> },
    Call { callee: Box<ExpressionView>, paren_line: usize, arguments: Seq<ExpressionView> },
    Get { object: Box<ExpressionView>, name: TokenView },
    Grouping(Box<ExpressionView>),
    Literal(LiteralView),
    Logical { left: Box<ExpressionView>, op: TokenView, right: Box<ExpressionView> },
    SetProperty { object: Box<ExpressionView>, name: TokenView, value: Box<ExpressionView> },
    Super { id: usize, keyword: TokenView, method: TokenView },
    This { id: usize, keyword: TokenView },
    Unary { op: TokenView, right: Box<ExpressionView> },
    Variable { id: usize, name: TokenView },
}

/// The mathematical content of a [`Function`].
pub struct FunctionView {
    pub name: TokenView,
    pub params: Seq<TokenView>,
    pub body: Seq<StatementView>,
}

/// The mathematical content of a [`Statement`].
pub enum StatementView {
    Block(Seq<StatementView>),
    Class { name: TokenView, superclass: Option<ExpressionView>, methods: Seq<FunctionView> },
    Expression(ExpressionView),
    Function(FunctionView),
    If {
        condition: ExpressionView,
        then_branch: Box<StatementView>,
        else_branch: Option<Box<StatementView>>,
    },
    Print(ExpressionView),
    Return { keyword: TokenView, value: Option<ExpressionView> },
    Variable { name: TokenView, init: Option<ExpressionView> },
    While { condition: ExpressionView, body: Box<StatementView> },
}

/// The content of an expression.
pub open spec fn expression_view(expr: Expression) -> ExpressionView
    decreases expr,
{
    match expr {
        Expression::Assign { id, name, value } => ExpressionView::Assign {
            id,
            name: name@,
            value: Box::new(expression_view(*value)),
        },
        Expression::Binary { left, op, right } => ExpressionView::Binary {
            left: Box::new(expression_view(*left)),
            op: op@,
            right: Box::new(expression_view(*right)),
        },
        Expression::Call { callee, paren_line, arguments } => ExpressionView::Call {
            callee: Box::new(expression_view(*callee)),
            paren_line,
            arguments: Seq::new(
                arguments@.len(),
                |i: int|
                    if 0 <= i < arguments@.len() {
                        expression_view(arguments@[i])
                    } else {
                        ExpressionView::Literal(LiteralView::Nil)
                    },
            ),
        },
        Expression::Get { object, name } => ExpressionView::Get {
            object: Box::new(expression_view(*object)),
            name: name@,
        },
        Expression::Grouping(inner) => ExpressionView::Grouping(Box::new(expression_view(*inner))),
        Expression::Literal(literal) => ExpressionView::Literal(literal@),
        Expression::Logical { left, op, right } => ExpressionView::Logical {
            left: Box::new(expression_view(*left)),
            op: op@,
            right: Box::new(expression_view(*right)),
        },
        Expression::SetProperty { object, name, value } => ExpressionView::SetProperty {
            object: Box::new(expression_view(*object)),
            name: name@,
            value: Box::new(expression_view(*value)),
        },
        Expression::Super { id, keyword, method } => ExpressionView::Super {
            id,
            keyword: keyword@,
            method: method@,
        },
        Expression::This { id, keyword } => ExpressionView::This { id, keyword: keyword@ },
        Expression::Unary { op, right } => ExpressionView::Unary {
            op: op@,
            right: Box::new(expression_view(*right)),
        },
        Expression::Variable { id, name } => ExpressionView::Variable { id, name: name@ },
    }
}

impl View for Expression {
    type V = ExpressionView;

    open spec fn view(&self) -> ExpressionView {
        expression_view(*self)
    }
}

/// The content of an optional expression.
pub open spec fn optional_expression_view(expr: Option<Expression>) -> Option<ExpressionView> {
    match expr {
        Some(expr) => Some(expr@),
        None => None,
    }
}

/// The content of a sequence of tokens.
pub open spec fn tokens_view(tokens: Seq<Token>) -> Seq<TokenView> {
    Seq::new(tokens.len(), |i: int| tokens[i]@)
}

/// The content of a statement.
pub open spec fn statement_view(statement: Statement) -> StatementView
    decreases statement,
{
    match statement {
        Statement::Block(statements) => StatementView::Block(statements_view(statements@)),
        Statement::Class { name, superclass, methods } => StatementView::Class {
            name: name@,
            superclass: optional_expression_view(superclass),
            methods: Seq::new(
                methods@.len(),
                |i: int|
                    if 0 <= i < methods@.len() {
                        function_view(methods@[i])
                    } else {
                        FunctionView { name: name@, params: Seq::empty(), body: Seq::empty() }
                    },
            ),
        },
        Statement::Expression(expr) => StatementView::Expression(expr@),
        Statement::Function(function) => StatementView::Function(function_view(function)),
        Statement::If { condition, then_branch, else_branch } => StatementView::If {
            condition: condition@,
            then_branch: Box::new(statement_view(*then_branch)),
            else_branch: match else_branch {
                Some(statement) => Some(Box::new(statement_view(*statement))),
                None => None,
            },
        },
        Statement::Print(expr) => StatementView::Print(expr@),
        Statement::Return { keyword, value } => StatementView::Return {
            keyword: keyword@,
            value: optional_expression_view(value),
        },
        Statement::Variable { name, init } => StatementView::Variable {
            name: name@,
            init: optional_expression_view(init),
        },
        Statement::While { condition, body } => StatementView::While {
            condition: condition@,
            body: Box::new(statement_view(*body)),
        },
    }
}

/// The content of a sequence of statements.
pub open spec fn statements_view(statements: Seq<Statement>) -> Seq<StatementView>
    decreases statements,
{
    Seq::new(
        statements.len(),
        |i: int|
            if 0 <= i < statements.len() {
                statement_view(statements[i])
            } else {
                StatementView::Block(Seq::empty())
            },
    )
}

/// The content of a function declaration.
pub open spec fn function_view(function: Function) -> FunctionView
    decreases function,
{
    FunctionView {
        name: function.name@,
        params: tokens_view(function.params@),
        body: statements_view(function.body@),
    }
}

/// The content of a sequence of function declarations.
pub open spec fn functions_view(functions: Seq<Function>) -> Seq<FunctionView> {
    Seq::new(functions.len(), |i: int| function_view(functions[i]))
}

impl View for Statement {
    type V = StatementView;

    open spec fn view(&self) -> StatementView {
        statement_view(*self)
    }
}

impl View for Function {
    type V = FunctionView;

    open spec fn view(&self) -> FunctionView {
        function_view(*self)
    }
}

} // verus!
