//! The errors that the phases of the interpreter report.

use vstd::prelude::*;
use vstd::string::StringExecFns;
use crate::strings::{decimal, push_decimal, str_eq};

verus! {

/// An error of the parser, the resolver or the running program.
#[derive(Debug)]
pub enum LoxError {
    /// A static error, found before the program runs.
    SyntaxError { line: usize, error_type: &'static str, lexeme: String, message: String },
    /// An operand or callee of the wrong kind.
    TypeError(String),
    /// A global variable that was never defined.
    UndefinedVariable { name: String, line: usize },
    /// A property that neither the instance nor its class chain holds.
    UndefinedProperty(String),
    /// A call with the wrong number of arguments.
    ArgumentCountError { expected: usize, got: usize },
}

/// The mathematical content of a [`LoxError`].
pub enum LoxErrorView {
    SyntaxError { line: usize, error_type: Seq<char>, lexeme: Seq<char>, message: Seq<char> },
    TypeError(Seq<char>),
    UndefinedVariable { name: Seq<char>, line: usize },
    UndefinedProperty(Seq<char>),
    ArgumentCountError { expected: usize, got: usize },
}

impl View for LoxError {
    type V = LoxErrorView;

    open spec fn view(&self) -> LoxErrorView {
        match self {
            LoxError::SyntaxError { line, error_type, lexeme, message } => LoxErrorView::SyntaxError {
                line: *line,
                error_type: error_type@,
                lexeme: lexeme@,
                message: message@,
            },
            LoxError::TypeError(message) => LoxErrorView::TypeError(message@),
            LoxError::UndefinedVariable { name, line } => LoxErrorView::UndefinedVariable {
                name: name@,
                line: *line,
            },
            LoxError::UndefinedProperty(name) => LoxErrorView::UndefinedProperty(name@),
            LoxError::ArgumentCountError { expected, got } => LoxErrorView::ArgumentCountError {
                expected: *expected,
                got: *got,
            },
        }
    }
}

/// The category of the errors that the parser reports.
pub const PARSER: &'static str = "Parser";

/// The category of the errors that the resolver reports.
pub const RESOLVER: &'static str = "Resolver";

impl LoxErrorView {
    /// The line of text that reports this error.
    ///
    /// A parser error reads `[line N] Error at 'LEXEME': MESSAGE`; a static
    /// error of another category names the category before `Error`.
    pub open spec fn text(self) -> Seq<char> {
        match self {
            LoxErrorView::SyntaxError { line, error_type, lexeme, message } => {
                let category = if error_type == PARSER@ {
                    Seq::<char>::empty()
                } else {
                    error_type + " "@
                };
                "[line "@ + decimal(line as nat) + "] "@ + category + "Error at '"@ + lexeme
                    + "': "@ + message
            },
            LoxErrorView::TypeError(message) => message,
            LoxErrorView::UndefinedVariable { name, line } => "Undefined variable '"@ + name
                + "'.\n[line "@ + decimal(line as nat) + "]"@,
            LoxErrorView::UndefinedProperty(name) => "Undefined property '"@ + name + "'."@,
            LoxErrorView::ArgumentCountError { expected, got } => "Expected "@ + decimal(
                expected as nat,
            ) + " arguments but got "@ + decimal(got as nat) + "."@,
        }
    }
}

impl LoxError {
    /// A static error of the parser at the given line and lexeme.
    pub fn parser_error(line: usize, lexeme: &str, message: &str) -> (error: Self)
        ensures
            error@ == (LoxErrorView::SyntaxError {
                line,
                error_type: PARSER@,
                lexeme: lexeme@,
                message: message@,
            }),
    {
        LoxError::SyntaxError {
            line,
            error_type: PARSER,
            lexeme: String::from_str(lexeme),
            message: String::from_str(message),
        }
    }

    /// A static error of the resolver at the given line and lexeme.
    pub fn resolver_error(line: usize, lexeme: &str, message: &str) -> (error: Self)
        ensures
            error@ == (LoxErrorView::SyntaxError {
                line,
                error_type: RESOLVER@,
                lexeme: lexeme@,
                message: message@,
            }),
    {
        LoxError::SyntaxError {
            line,
            error_type: RESOLVER,
            lexeme: String::from_str(lexeme),
            message: String::from_str(message),
        }
    }

    /// The line of text that reports this error.
    pub fn to_string(&self) -> (text: String)
        ensures
            text@ == self@.text(),
    {
        let mut text = String::new();
        match self {
            LoxError::SyntaxError { line, error_type, lexeme, message } => {
                text.append("[line ");
                push_decimal(&mut text, *line);
                text.append("] ");
                if !str_eq(error_type, PARSER) {
                    text.append(error_type);
                    text.append(" ");
                }
                text.append("Error at '");
                text.append(lexeme.as_str());
                text.append("': ");
                text.append(message.as_str());
            },
            LoxError::TypeError(message) => {
                text.append(message.as_str());
            },
            LoxError::UndefinedVariable { name, line } => {
                text.append("Undefined variable '");
                text.append(name.as_str());
                text.append("'.\n[line ");
                push_decimal(&mut text, *line);
                text.append("]");
            },
            LoxError::UndefinedProperty(name) => {
                text.append("Undefined property '");
                text.append(name.as_str());
                text.append("'.");
            },
            LoxError::ArgumentCountError { expected, got } => {
                text.append("Expected ");
                push_decimal(&mut text, *expected);
                text.append(" arguments but got ");
                push_decimal(&mut text, *got);
                text.append(".");
            },
        }
        text
    }
}

} // verus!
