//! A tree-walking interpreter for the Lox scripting language.
//!
//! The pipeline runs leaves first: the [`Scanner`] turns source text into
//! tokens, the [`Parser`] turns tokens into statements, the [`Resolver`] binds
//! every local variable use to a scope distance, and the [`Interpreter`]
//! executes the statements one step at a time.
//!
//! The library never touches floating point, the clock or the output stream.
//! Numbers travel as IEEE-754 binary64 bit patterns, and whenever a step needs
//! arithmetic, the time or a line printed, it hands an [`Action`] to its
//! caller and continues from the caller's answer.
//!
//! What each part computes is written down as a function of its input:
//! [`scanner::scan`] for the tokens of a text, [`syntax`] for the grammar,
//! [`resolver::Resolution`] for the static rules, [`machine::State::step`]
//! for a step of the interpreter. [`meaning`] says what a program means, by
//! the shape of its syntax tree, and [`agreement`] proves that the steps of
//! the interpreter arrive at it.

pub mod agreement;
pub mod callable;
pub mod constants;
pub mod derivation;
pub mod environment;
pub mod error;
pub mod grammar;
pub mod hosted;
pub mod interpreter;
pub mod machine;
pub mod meaning;
pub mod numbering;
pub mod parser;
pub mod render;
pub mod resolver;
pub mod scanner;
pub mod strings;
pub mod syntax;
pub mod value;

pub use callable::{Callable, LoxCallable, LoxClass, LoxFunction, LoxInstance, Native};
pub use constants::exit_codes::{CANNOT_OPEN_INPUT, COMMAND_LINE_USAGE, RUNTIME_ERROR, SYNTAX_ERROR};
pub use environment::Environment;
pub use error::LoxError;
pub use grammar::{get_token_type, Expression, Function, Literal, Statement, Token, TokenType};
pub use interpreter::{Action, Interpreter};
pub use machine::{Arithmetic, Event};
pub use parser::Parser;
pub use render::Piece;
pub use resolver::Resolver;
pub use scanner::Scanner;
pub use value::Value;
