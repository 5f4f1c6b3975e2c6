use lox_interpreter::{Environment, LoxError, Token, TokenType, Value};

fn name(lexeme: &str, line: usize) -> Token {
    Token { token_type: TokenType::IDENTIFIER, lexeme: lexeme.to_string(), literal: None, line }
}

fn undefined(error: LoxError) -> (String, usize) {
    match error {
        LoxError::UndefinedVariable { name, line } => (name, line),
        other => panic!("{other:?}"),
    }
}

#[test]
fn a_new_environment_has_the_global_scope_alone() {
    let environment = Environment::new();
    assert_eq!(environment.len(), 1);
    assert_eq!(undefined(environment.get(0, &name("a", 3)).unwrap_err()), ("a".to_string(), 3));
    assert_eq!(environment.get_at(0, 0, "a"), Value::Nil);
}

#[test]
fn define_sets_and_redefines() {
    let mut environment = Environment::new();
    environment.define(0, "a", Value::Number(1));
    assert_eq!(environment.get(0, &name("a", 1)).unwrap(), Value::Number(1));
    environment.define(0, "a", Value::Boolean(true));
    assert_eq!(environment.get(0, &name("a", 1)).unwrap(), Value::Boolean(true));
    assert_eq!(environment.get_at(0, 0, "a"), Value::Boolean(true));
}

#[test]
fn lookup_goes_outward_and_finds_the_nearest() {
    let mut environment = Environment::new();
    environment.define(0, "a", Value::Number(1));
    environment.define(0, "b", Value::Number(2));
    let block = environment.new_enclosed(0);
    assert_eq!(block, 1);
    let inner = environment.new_enclosed(block);
    assert_eq!(inner, 2);
    environment.define(block, "a", Value::Number(10));
    assert_eq!(environment.get(inner, &name("a", 1)).unwrap(), Value::Number(10));
    assert_eq!(environment.get(inner, &name("b", 1)).unwrap(), Value::Number(2));
    assert_eq!(environment.get(0, &name("a", 1)).unwrap(), Value::Number(1));
    assert_eq!(environment.holder(inner, "a"), Some(block));
    assert_eq!(environment.holder(inner, "b"), Some(0));
    assert_eq!(environment.holder(inner, "c"), None);
}

#[test]
fn lookup_is_the_same_when_asked_again() {
    let mut environment = Environment::new();
    environment.define(0, "a", Value::Number(1));
    let block = environment.new_enclosed(0);
    let first = environment.get(block, &name("a", 1)).unwrap();
    let second = environment.get(block, &name("a", 1)).unwrap();
    assert_eq!(first, second);
    environment.define(block, "other", Value::Nil);
    environment.new_enclosed(block);
    assert_eq!(environment.get(block, &name("a", 1)).unwrap(), first);
}

#[test]
fn shadowing_hides_and_gives_back() {
    let mut environment = Environment::new();
    environment.define(0, "x", Value::Number(1));
    let block = environment.new_enclosed(0);
    environment.define(block, "x", Value::Number(2));
    assert_eq!(environment.get(block, &name("x", 1)).unwrap(), Value::Number(2));
    assert_eq!(environment.get_at(block, 0, "x"), Value::Number(2));
    assert_eq!(environment.get_at(block, 1, "x"), Value::Number(1));
    assert_eq!(environment.get(0, &name("x", 1)).unwrap(), Value::Number(1));
}

#[test]
fn assign_changes_the_scope_that_holds_the_name() {
    let mut environment = Environment::new();
    environment.define(0, "a", Value::Number(1));
    let block = environment.new_enclosed(0);
    environment.assign(block, &name("a", 1), Value::Number(5)).unwrap();
    assert_eq!(environment.get_at(0, 0, "a"), Value::Number(5));
    assert_eq!(environment.get_at(block, 0, "a"), Value::Nil);
    let error = environment.assign(block, &name("missing", 9), Value::Nil).unwrap_err();
    assert_eq!(undefined(error), ("missing".to_string(), 9));
    assert_eq!(environment.holder(block, "missing"), None);
}

#[test]
fn ancestors_are_counted_in_links() {
    let mut environment = Environment::new();
    let first = environment.new_enclosed(0);
    let second = environment.new_enclosed(first);
    let sibling = environment.new_enclosed(first);
    assert_eq!(environment.ancestor(second, 0), second);
    assert_eq!(environment.ancestor(second, 1), first);
    assert_eq!(environment.ancestor(second, 2), 0);
    assert_eq!(environment.ancestor(sibling, 1), first);
    assert_eq!(environment.try_ancestor(second, 3), None);
    assert_eq!(environment.try_ancestor(0, 1), None);
    assert_eq!(environment.try_ancestor(sibling, 2), Some(0));
}

#[test]
fn assign_at_sets_in_the_scope_at_that_distance() {
    let mut environment = Environment::new();
    let first = environment.new_enclosed(0);
    let second = environment.new_enclosed(first);
    environment.assign_at(second, 1, "a", Value::Number(3));
    assert_eq!(environment.get_at(first, 0, "a"), Value::Number(3));
    assert_eq!(environment.get_at(second, 1, "a"), Value::Number(3));
    assert_eq!(environment.get_at(second, 0, "a"), Value::Nil);
    assert_eq!(environment.get_at(second, 2, "a"), Value::Nil);
    assert_eq!(environment.len(), 3);
}
