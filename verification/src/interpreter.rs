//! The interpreter: the machine of [`crate::machine`], made to run.

use std::collections::HashMap;
use vstd::hash_map::StringHashMap;
use vstd::prelude::*;
use vstd::string::StringExecFns;
use crate::callable::{Callable, LoxClass, LoxFunction, LoxInstance, LoxInstanceView, Native};
use crate::constants::errors::{
    CAN_ONLY_CALL, ONLY_INSTANCES_HAVE_FIELDS, ONLY_INSTANCES_HAVE_PROPERTIES,
    OPERANDS_MUST_BE_NUMBERS, OPERANDS_MUST_BE_NUMBERS_OR_STRINGS, OPERAND_MUST_BE_NUMBER,
    SUPERCLASS_MUST_BE_CLASS, SUPER_MUST_BE_CLASS, SUPER_NOT_RESOLVED, THIS_MUST_BE_INSTANCE,
    UNKNOWN_OPERATOR, UNRESOLVED_SCOPE,
};
use crate::constants::{CLOCK_FUNCTION, INIT_METHOD, SUPER_KEYWORD, THIS_KEYWORD};
use crate::environment::{Environment, ScopeView};
use crate::error::LoxError;
use crate::grammar::{Expression, Function, Literal, Statement, Token, TokenType};
use crate::machine::{globals, ActionView, Arithmetic, Control, Event, Frame, Outcome, Request, State};
use crate::render::Piece;
use crate::strings::str_eq;
use crate::value::{negate, numbers_equal, numbers_less, variant_eq, Value};

verus! {

broadcast use vstd::std_specs::hash::group_hash_axioms;

/// What a step hands to the caller.
#[derive(Debug)]
pub enum Action {
    /// Nothing: step again.
    Continue,
    /// The caller computes the operator on the two doubles and answers with
    /// the result.
    Arithmetic { operator: Arithmetic, left: u64, right: u64 },
    /// The caller answers with the double nearest to the decimal numeral.
    ParseNumber(String),
    /// The caller answers with the seconds since the Unix epoch.
    Clock,
    /// The caller prints the line.
    Print(Piece),
    /// The program, or the expression, has run to its end.
    Finished(Value),
    /// The program has stopped on an error.
    Failed(LoxError),
}

impl View for Action {
    type V = ActionView;

    open spec fn view(&self) -> ActionView {
        match self {
            Action::Continue => ActionView::Continue,
            Action::Arithmetic { operator, left, right } => ActionView::Arithmetic {
                operator: *operator,
                left: *left,
                right: *right,
            },
            Action::ParseNumber(numeral) => ActionView::ParseNumber(numeral@),
            Action::Clock => ActionView::Clock,
            Action::Print(piece) => ActionView::Print(piece@),
            Action::Finished(value) => ActionView::Finished(*value),
            Action::Failed(error) => ActionView::Failed(error@),
        }
    }
}

/// A running program: its scopes and objects, the resolution table, and the
/// place that the run has reached.
pub struct Interpreter<'a> {
    environment: Environment,
    current: usize,
    locals: HashMap<usize, usize>,
    strings: Vec<String>,
    functions: Vec<Callable<'a>>,
    classes: Vec<LoxClass>,
    instances: Vec<LoxInstance>,
    control: Control<'a>,
    frames: Vec<Frame<'a>>,
    operands: Vec<Value>,
}

impl<'a> View for Interpreter<'a> {
    type V = State<'a>;

    closed spec fn view(&self) -> State<'a> {
        State {
            scopes: self.environment@,
            current: self.current,
            locals: self.locals@,
            strings: Seq::new(self.strings@.len(), |i: int| self.strings@[i]@),
            functions: self.functions@,
            classes: Seq::new(self.classes@.len(), |i: int| self.classes@[i]@),
            instances: Seq::new(self.instances@.len(), |i: int| self.instances@[i]@),
            control: self.control,
            frames: self.frames@,
            operands: self.operands@,
        }
    }
}

impl<'a> Interpreter<'a> {
    /// The state of the interpreter is well formed.
    pub open spec fn wf(&self) -> bool {
        self@.wf()
    }

    /// The state that the interpreter is left in, with what it hands out.
    pub open spec fn yields(&self, action: Action) -> Outcome<'a> {
        Outcome { state: self@, action: action@ }
    }

    fn go(&mut self, control: Control<'a>) -> (action: Action)
        ensures
            final(self).yields(action) == old(self)@.go(control),
    {
        self.control = control;
        Action::Continue
    }

    fn deliver(&mut self, value: Value) -> (action: Action)
        ensures
            final(self).yields(action) == old(self)@.deliver(value),
    {
        self.go(Control::Deliver(value))
    }

    fn fail(&mut self, error: LoxError) -> (action: Action)
        requires
            old(self).wf(),
        ensures
            final(self).wf(),
            final(self).yields(action) == old(self)@.fail(error@),
    {
        self.control = Control::Idle;
        self.frames.clear();
        self.operands.clear();
        self.current = 0;
        Action::Failed(error)
    }

    fn type_error(&mut self, message: &str) -> (action: Action)
        requires
            old(self).wf(),
        ensures
            final(self).wf(),
            final(self).yields(action) == old(self)@.fail(crate::machine::type_error(message@)),
    {
        self.fail(LoxError::TypeError(String::from_str(message)))
    }

    fn ask(&mut self, request: Request<'a>) -> (action: Action)
        ensures
            final(self).yields(action) == old(self)@.ask(request),
    {
        self.control = Control::Pending(request);
        match request {
            Request::Arithmetic { operator, left, right } => Action::Arithmetic {
                operator,
                left,
                right,
            },
            Request::ParseNumber(numeral) => Action::ParseNumber(numeral.clone()),
            Request::Clock => Action::Clock,
        }
    }

    fn push(&mut self, frame: Frame<'a>)
        ensures
            final(self)@ == old(self)@.push(frame),
    {
        self.frames.push(frame);
    }

    fn add_string(&mut self, text: String) -> (value: Value)
        ensures
            value == Value::String(old(self)@.strings.len() as usize),
            final(self)@ == (State { strings: old(self)@.strings.push(text@), ..old(self)@ }),
    {
        let handle = self.strings.len();
        self.strings.push(text);
        assert(self@.strings =~= old(self)@.strings.push(text@));
        Value::String(handle)
    }

    fn add_function(&mut self, callable: Callable<'a>) -> (handle: usize)
        ensures
            handle == old(self)@.functions.len(),
            final(self)@ == (State {
                functions: old(self)@.functions.push(callable),
                ..old(self)@
            }),
    {
        let handle = self.functions.len();
        self.functions.push(callable);
        handle
    }

    fn define(&mut self, scope: usize, name: &str, value: Value)
        requires
            scope < old(self)@.scopes.len(),
        ensures
            final(self)@ == old(self)@.define(scope as int, name@, value),
            old(self).wf() ==> final(self).wf(),
    {
        self.environment.define(scope, name, value);
        proof {
            if old(self).wf() {
                let before = old(self)@.scopes;
                let after = self@.scopes;
                assert forall|i: int| 0 <= i < after.len() implies match (#[trigger] after[i]).parent {
                    Some(p) => p < i,
                    None => true,
                } by {
                    assert(after[i].parent == before[i].parent);
                }
            }
        }
    }

    /// Makes a scope enclosed by `enclosing` that holds `name` alone.
    fn enclose_with(&mut self, enclosing: usize, name: &str, value: Value) -> (scope: usize)
        requires
            old(self).wf(),
            enclosing < old(self)@.scopes.len(),
        ensures
            final(self).wf(),
            scope == old(self)@.scopes.len(),
            final(self)@ == old(self)@.enclose(
                enclosing,
                Map::<Seq<char>, Value>::empty().insert(name@, value),
            ),
    {
        let scope = self.environment.new_enclosed(enclosing);
        self.environment.define(scope, name, value);
        assert(self@.scopes =~= old(self)@.scopes.push(
            ScopeView {
                values: Map::<Seq<char>, Value>::empty().insert(name@, value),
                parent: Some(enclosing),
            },
        ));
        scope
    }

    /// Makes an empty scope enclosed by `enclosing`.
    fn enclose(&mut self, enclosing: usize) -> (scope: usize)
        requires
            old(self).wf(),
            enclosing < old(self)@.scopes.len(),
        ensures
            final(self).wf(),
            scope == old(self)@.scopes.len(),
            final(self)@ == old(self)@.enclose(enclosing, Map::<Seq<char>, Value>::empty()),
    {
        self.environment.new_enclosed(enclosing)
    }

    fn user_function(&self, handle: usize) -> (function: Option<LoxFunction<'a>>)
        requires
            self.wf(),
        ensures
            function == self@.user_function(handle),
            function matches Some(f) ==> f.closure < self@.scopes.len(),
    {
        if handle < self.functions.len() {
            match self.functions[handle] {
                Callable::Function(function) => Some(function),
                Callable::Native(_) => None,
            }
        } else {
            None
        }
    }

    fn find_method(&self, class: usize, name: &str) -> (method: Option<LoxFunction<'a>>)
        requires
            self.wf(),
        ensures
            method == self@.find_method(class, name@),
            method matches Some(f) ==> f.closure < self@.scopes.len(),
    {
        let mut at: usize = class;
        loop
            invariant
                self.wf(),
                crate::callable::method_of(self@.classes, at as int, name@)
                    == crate::callable::method_of(self@.classes, class as int, name@),
            decreases at,
        {
            if at >= self.classes.len() {
                return None;
            }
            match self.classes[at].find_method(name) {
                Some(handle) => {
                    return self.user_function(handle);
                },
                None => match self.classes[at].superclass() {
                    Some(superclass) => {
                        assert(self@.classes[at as int].superclass == Some(superclass));
                        at = superclass;
                    },
                    None => {
                        return None;
                    },
                },
            }
        }
    }

    fn literal(&mut self, literal: &'a Literal) -> (action: Action)
        requires
            old(self).wf(),
        ensures
            final(self).wf(),
            final(self).yields(action) == old(self)@.literal(literal),
    {
        match literal {
            Literal::Nil => self.deliver(Value::Nil),
            Literal::Boolean(b) => self.deliver(Value::Boolean(*b)),
            Literal::String(text) => {
                let value = self.add_string(text.clone());
                self.deliver(value)
            },
            Literal::Number(numeral) => self.ask(Request::ParseNumber(numeral)),
        }
    }

    fn lookup_variable(&mut self, exp_id: usize, name: &'a Token) -> (action: Action)
        requires
            old(self).wf(),
        ensures
            final(self).wf(),
            final(self).yields(action) == old(self)@.variable(exp_id, name),
    {
        let depth = match self.locals.get(&exp_id) {
            Some(depth) => Some(*depth),
            None => None,
        };
        match depth {
            Some(depth) => match self.environment.try_ancestor(self.current, depth) {
                Some(scope) => {
                    let value = self.environment.get_at(scope, 0, name.lexeme.as_str());
                    self.deliver(value)
                },
                None => self.type_error(UNRESOLVED_SCOPE),
            },
            None => match self.environment.get(0, name) {
                Ok(value) => self.deliver(value),
                Err(error) => self.fail(error),
            },
        }
    }

    fn assign_variable(&mut self, exp_id: usize, name: &'a Token, value: Value) -> (action: Action)
        requires
            old(self).wf(),
        ensures
            final(self).wf(),
            final(self).yields(action) == old(self)@.assign(exp_id, name, value),
    {
        let depth = match self.locals.get(&exp_id) {
            Some(depth) => Some(*depth),
            None => None,
        };
        match depth {
            Some(depth) => match self.environment.try_ancestor(self.current, depth) {
                Some(scope) => {
                    self.define(scope, name.lexeme.as_str(), value);
                    self.deliver(value)
                },
                None => self.type_error(UNRESOLVED_SCOPE),
            },
            None => match self.environment.holder(0, name.lexeme.as_str()) {
                Some(scope) => {
                    self.define(scope, name.lexeme.as_str(), value);
                    self.deliver(value)
                },
                None => self.fail(
                    LoxError::UndefinedVariable { name: name.lexeme.clone(), line: name.line },
                ),
            },
        }
    }

    /// Binds `method` to the instance `instance`; the handle of the bound
    /// function is returned.
    fn bind(&mut self, method: LoxFunction<'a>, instance: usize) -> (handle: usize)
        requires
            old(self).wf(),
            method.closure < old(self)@.scopes.len(),
        ensures
            final(self).wf(),
            handle == old(self)@.functions.len(),
            final(self)@ == old(self)@.bind(method, instance),
    {
        let closure = self.enclose_with(method.closure, THIS_KEYWORD, Value::Instance(instance));
        self.add_function(
            Callable::Function(LoxFunction::new(method.declaration, closure, method.is_initializer)),
        )
    }

    fn super_method(&mut self, exp_id: usize, method: &'a Token) -> (action: Action)
        requires
            old(self).wf(),
        ensures
            final(self).wf(),
            final(self).yields(action) == old(self)@.super_method(exp_id, method),
    {
        let depth = match self.locals.get(&exp_id) {
            Some(depth) => *depth,
            None => {
                return self.type_error(SUPER_NOT_RESOLVED);
            },
        };
        let scope = match self.environment.try_ancestor(self.current, depth) {
            Some(scope) => scope,
            None => {
                return self.type_error(UNRESOLVED_SCOPE);
            },
        };
        let superclass = match self.environment.get_at(scope, 0, SUPER_KEYWORD) {
            Value::Class(superclass) => superclass,
            _ => {
                return self.type_error(SUPER_MUST_BE_CLASS);
            },
        };
        if depth == 0 {
            return self.type_error(THIS_MUST_BE_INSTANCE);
        }
        let inner = match self.environment.try_ancestor(self.current, depth - 1) {
            Some(inner) => inner,
            None => {
                return self.type_error(UNRESOLVED_SCOPE);
            },
        };
        let receiver = match self.environment.get_at(inner, 0, THIS_KEYWORD) {
            Value::Instance(receiver) => receiver,
            _ => {
                return self.type_error(THIS_MUST_BE_INSTANCE);
            },
        };
        match self.find_method(superclass, method.lexeme.as_str()) {
            Some(found) => {
                let handle = self.bind(found, receiver);
                self.deliver(Value::Function(handle))
            },
            None => self.fail(LoxError::UndefinedProperty(method.lexeme.clone())),
        }
    }

    /// Takes the first step of the expression `expr`.
    pub fn evaluate(&mut self, expr: &'a Expression) -> (action: Action)
        requires
            old(self).wf(),
        ensures
            final(self).wf(),
            final(self).yields(action) == old(self)@.evaluate(expr),
    {
        match expr {
            Expression::Assign { id, name, value } => {
                self.push(Frame::Assign { id: *id, name });
                self.go(Control::Evaluate(&**value))
            },
            Expression::Binary { left, op, right } => {
                self.push(Frame::BinaryRight { op, right: &**right });
                self.go(Control::Evaluate(&**left))
            },
            Expression::Call { callee, paren_line, arguments } => {
                self.push(Frame::Callee { arguments });
                self.go(Control::Evaluate(&**callee))
            },
            Expression::Get { object, name } => {
                self.push(Frame::Get { name });
                self.go(Control::Evaluate(&**object))
            },
            Expression::Grouping(inner) => self.go(Control::Evaluate(&**inner)),
            Expression::Literal(literal) => self.literal(literal),
            Expression::Logical { left, op, right } => {
                self.push(Frame::Logical { op, right: &**right });
                self.go(Control::Evaluate(&**left))
            },
            Expression::SetProperty { object, name, value } => {
                self.push(Frame::SetObject { name, value: &**value });
                self.go(Control::Evaluate(&**object))
            },
            Expression::Super { id, keyword, method } => self.super_method(*id, method),
            Expression::This { id, keyword } => self.lookup_variable(*id, keyword),
            Expression::Unary { op, right } => {
                self.push(Frame::Unary { op });
                self.go(Control::Evaluate(&**right))
            },
            Expression::Variable { id, name } => self.lookup_variable(*id, name),
        }
    }

    fn add_class(&mut self, class: LoxClass) -> (handle: usize)
        requires
            old(self).wf(),
            class@.superclass matches Some(s) ==> s < old(self)@.classes.len(),
        ensures
            final(self).wf(),
            handle == old(self)@.classes.len(),
            final(self)@ == (State { classes: old(self)@.classes.push(class@), ..old(self)@ }),
    {
        let handle = self.classes.len();
        self.classes.push(class);
        assert(self@.classes =~= old(self)@.classes.push(class@));
        handle
    }

    fn add_instance(&mut self, class: usize) -> (handle: usize)
        requires
            old(self).wf(),
            class < old(self)@.classes.len(),
        ensures
            final(self).wf(),
            handle == old(self)@.instances.len(),
            final(self)@ == (State {
                instances: old(self)@.instances.push(
                    LoxInstanceView { class, fields: Map::<Seq<char>, Value>::empty() },
                ),
                ..old(self)@
            }),
    {
        let handle = self.instances.len();
        self.instances.push(LoxInstance::new(class));
        assert(self@.instances =~= old(self)@.instances.push(
            LoxInstanceView { class, fields: Map::<Seq<char>, Value>::empty() },
        ));
        handle
    }

    fn set_field(&mut self, instance: usize, name: &Token, value: Value)
        requires
            old(self).wf(),
            instance < old(self)@.instances.len(),
        ensures
            final(self).wf(),
            final(self)@ == (State {
                instances: old(self)@.instances.update(
                    instance as int,
                    LoxInstanceView {
                        fields: old(self)@.instances[instance as int].fields.insert(
                            name.lexeme@,
                            value,
                        ),
                        ..old(self)@.instances[instance as int]
                    },
                ),
                ..old(self)@
            }),
    {
        self.instances[instance].set(name, value);
        assert(self@.instances =~= old(self)@.instances.update(
            instance as int,
            LoxInstanceView {
                fields: old(self)@.instances[instance as int].fields.insert(name.lexeme@, value),
                ..old(self)@.instances[instance as int]
            },
        ));
    }

    /// The text of the string with that handle.
    fn string_text(&self, handle: usize) -> (text: String)
        ensures
            text@ == crate::machine::string_at(self@.strings, handle),
    {
        if handle < self.strings.len() {
            self.strings[handle].clone()
        } else {
            String::new()
        }
    }

    /// Equality of values: numbers as doubles, strings by their text,
    /// functions, classes and instances by identity.
    pub fn values_equal(&self, left: Value, right: Value) -> (equal: bool)
        ensures
            equal == crate::machine::values_equal(self@.strings, left, right),
    {
        if !variant_eq(&left, &right) {
            return false;
        }
        match (left, right) {
            (Value::Boolean(l), Value::Boolean(r)) => l == r,
            (Value::Number(l), Value::Number(r)) => numbers_equal(l, r),
            (Value::String(l), Value::String(r)) => {
                let left_text = self.string_text(l);
                let right_text = self.string_text(r);
                left_text == right_text
            },
            (Value::Function(l), Value::Function(r)) => l == r,
            (Value::Class(l), Value::Class(r)) => l == r,
            (Value::Instance(l), Value::Instance(r)) => l == r,
            _ => true,
        }
    }

    /// The printable form of a value.
    pub fn stringify(&self, value: Value) -> (piece: Piece)
        ensures
            piece@ == self@.printable(value),
    {
        match value {
            Value::Nil => Piece::Text(String::from_str("nil")),
            Value::Boolean(b) => Piece::Text(
                if b {
                    String::from_str("true")
                } else {
                    String::from_str("false")
                },
            ),
            Value::Number(bits) => Piece::Number(bits),
            Value::String(handle) => Piece::Text(self.string_text(handle)),
            Value::Function(handle) => {
                if handle < self.functions.len() {
                    match self.functions[handle] {
                        Callable::Function(function) => {
                            let mut text = String::from_str("<fn ");
                            text.append(function.declaration.name.lexeme.as_str());
                            text.append(">");
                            Piece::Text(text)
                        },
                        Callable::Native(_) => Piece::Text(String::from_str("<native fn>")),
                    }
                } else {
                    Piece::Text(String::new())
                }
            },
            Value::Class(handle) => {
                if handle < self.classes.len() {
                    Piece::Text(self.classes[handle].to_string())
                } else {
                    Piece::Text(String::new())
                }
            },
            Value::Instance(handle) => {
                if handle < self.instances.len() {
                    let class = self.instances[handle].class();
                    if class < self.classes.len() {
                        let mut text = self.classes[class].to_string();
                        text.append(" instance");
                        Piece::Text(text)
                    } else {
                        Piece::Text(String::new())
                    }
                } else {
                    Piece::Text(String::new())
                }
            },
        }
    }

    /// Starts `statements` as a block in the scope `env`: when they are done,
    /// or left by a `return`, the scope that is current now is current again.
    pub fn execute_block(&mut self, statements: &'a Vec<Statement>, env: usize) -> (action: Action)
        requires
            old(self).wf(),
            env < old(self)@.scopes.len(),
        ensures
            final(self).wf(),
            final(self).yields(action) == old(self)@.execute_block(statements, env),
    {
        self.push(Frame::Restore { saved: self.current });
        self.push(Frame::Sequence { statements, next: 0 });
        self.current = env;
        self.deliver(Value::Nil)
    }

    fn declare_class(
        &mut self,
        name: &'a Token,
        superclass: Option<usize>,
        methods: &'a Vec<Function>,
    ) -> (action: Action)
        requires
            old(self).wf(),
            superclass matches Some(s) ==> s < old(self)@.classes.len(),
        ensures
            final(self).wf(),
            final(self).yields(action) == old(self)@.declare_class(name, superclass, methods),
    {
        let current = self.current;
        self.define(current, name.lexeme.as_str(), Value::Nil);
        let closure = match superclass {
            Some(handle) => self.enclose_with(current, SUPER_KEYWORD, Value::Class(handle)),
            None => current,
        };
        let ghost scoped = self@;
        let first = self.functions.len();
        let mut table: StringHashMap<usize> = StringHashMap::new();
        let mut i: usize = 0;
        while i < methods.len()
            invariant
                i <= methods.len(),
                self.wf(),
                closure < self@.scopes.len(),
                first == scoped.functions.len(),
                self@ == (State {
                    functions: crate::machine::with_methods(
                        scoped.functions,
                        methods,
                        closure,
                        i as nat,
                    ),
                    ..scoped
                }),
                self@.functions.len() == first + i,
                table@ == crate::machine::method_table(methods@, first as nat, i as nat),
            decreases methods.len() - i,
        {
            let method = &methods[i];
            let is_initializer = str_eq(method.name.lexeme.as_str(), INIT_METHOD);
            let handle = self.add_function(
                Callable::Function(LoxFunction::new(method, closure, is_initializer)),
            );
            table.insert(method.name.lexeme.clone(), handle);
            i = i + 1;
        }
        let handle = self.add_class(LoxClass::new(name.lexeme.clone(), superclass, table));
        self.define(current, name.lexeme.as_str(), Value::Class(handle));
        self.deliver(Value::Nil)
    }

    /// Takes the first step of the statement `statement`.
    pub fn execute(&mut self, statement: &'a Statement) -> (action: Action)
        requires
            old(self).wf(),
        ensures
            final(self).wf(),
            final(self).yields(action) == old(self)@.execute(statement),
    {
        match statement {
            Statement::Block(statements) => {
                let scope = self.enclose(self.current);
                self.execute_block(statements, scope)
            },
            Statement::Class { name, superclass, methods } => match superclass {
                Some(expr) => {
                    self.push(Frame::Superclass { name, methods });
                    self.go(Control::Evaluate(expr))
                },
                None => self.declare_class(name, None, methods),
            },
            Statement::Expression(expr) => {
                self.push(Frame::Discard);
                self.go(Control::Evaluate(expr))
            },
            Statement::Function(declaration) => {
                let handle = self.add_function(
                    Callable::Function(LoxFunction::new(declaration, self.current, false)),
                );
                self.define(self.current, declaration.name.lexeme.as_str(), Value::Function(handle));
                self.deliver(Value::Nil)
            },
            Statement::If { condition, then_branch, else_branch } => {
                self.push(Frame::If { then_branch: &**then_branch, else_branch });
                self.go(Control::Evaluate(condition))
            },
            Statement::Print(expr) => {
                self.push(Frame::Print);
                self.go(Control::Evaluate(expr))
            },
            Statement::Return { keyword, value } => match value {
                Some(expr) => {
                    self.push(Frame::Return);
                    self.go(Control::Evaluate(expr))
                },
                None => self.go(Control::Return(Value::Nil)),
            },
            Statement::Variable { name, init } => match init {
                Some(expr) => {
                    self.push(Frame::Define { name });
                    self.go(Control::Evaluate(expr))
                },
                None => {
                    self.define(self.current, name.lexeme.as_str(), Value::Nil);
                    self.deliver(Value::Nil)
                },
            },
            Statement::While { condition, body } => {
                self.push(Frame::WhileCondition { condition, body: &**body });
                self.go(Control::Evaluate(condition))
            },
        }
    }

    fn binary(&mut self, op: &'a Token, left: Value, right: Value) -> (action: Action)
        requires
            old(self).wf(),
        ensures
            final(self).wf(),
            final(self).yields(action) == old(self)@.binary(op, left, right),
    {
        match op.token_type {
            TokenType::PLUS => match (left, right) {
                (Value::Number(l), Value::Number(r)) => self.ask(
                    Request::Arithmetic { operator: Arithmetic::Add, left: l, right: r },
                ),
                (Value::String(l), Value::String(r)) => {
                    let mut text = self.string_text(l);
                    let tail = self.string_text(r);
                    text.append(tail.as_str());
                    let value = self.add_string(text);
                    self.deliver(value)
                },
                _ => self.type_error(OPERANDS_MUST_BE_NUMBERS_OR_STRINGS),
            },
            TokenType::MINUS | TokenType::STAR | TokenType::SLASH => match (left, right) {
                (Value::Number(l), Value::Number(r)) => {
                    let operator = match op.token_type {
                        TokenType::MINUS => Arithmetic::Subtract,
                        TokenType::STAR => Arithmetic::Multiply,
                        _ => Arithmetic::Divide,
                    };
                    self.ask(Request::Arithmetic { operator, left: l, right: r })
                },
                _ => self.type_error(OPERANDS_MUST_BE_NUMBERS),
            },
            TokenType::LESS | TokenType::LESS_EQUAL | TokenType::GREATER | TokenType::GREATER_EQUAL => match (
                left,
                right,
            ) {
                (Value::Number(l), Value::Number(r)) => {
                    let result = match op.token_type {
                        TokenType::LESS => numbers_less(l, r),
                        TokenType::LESS_EQUAL => numbers_less(l, r) || numbers_equal(l, r),
                        TokenType::GREATER => numbers_less(r, l),
                        _ => numbers_less(r, l) || numbers_equal(l, r),
                    };
                    self.deliver(Value::Boolean(result))
                },
                _ => self.type_error(OPERANDS_MUST_BE_NUMBERS),
            },
            TokenType::EQUAL_EQUAL => {
                let equal = self.values_equal(left, right);
                self.deliver(Value::Boolean(equal))
            },
            TokenType::BANG_EQUAL => {
                let equal = self.values_equal(left, right);
                self.deliver(Value::Boolean(!equal))
            },
            _ => self.type_error(UNKNOWN_OPERATOR),
        }
    }

    fn call_function(&mut self, function: LoxFunction<'a>, handle: usize, arguments: Vec<Value>) -> (action:
        Action)
        requires
            old(self).wf(),
            function.closure < old(self)@.scopes.len(),
        ensures
            final(self).wf(),
            final(self).yields(action) == old(self)@.call_function(function, handle, arguments@),
    {
        let params = &function.declaration.params;
        if arguments.len() != params.len() {
            return self.fail(
                LoxError::ArgumentCountError { expected: params.len(), got: arguments.len() },
            );
        }
        let saved = self.current;
        let scope = self.enclose(function.closure);
        let mut i: usize = 0;
        while i < params.len()
            invariant
                i <= params.len(),
                params.len() == arguments.len(),
                self.wf(),
                scope == old(self)@.scopes.len(),
                self@ == old(self)@.enclose(
                    function.closure,
                    crate::machine::bound_parameters(params@, arguments@, i as nat),
                ),
            decreases params.len() - i,
        {
            self.define(scope, params[i].lexeme.as_str(), arguments[i]);
            i = i + 1;
            assert(self@.scopes =~= old(self)@.enclose(
                function.closure,
                crate::machine::bound_parameters(params@, arguments@, i as nat),
            ).scopes);
        }
        self.push(Frame::Call { function: handle, saved });
        self.execute_block(&function.declaration.body, scope)
    }

    fn instantiate(&mut self, class: usize, arguments: Vec<Value>) -> (action: Action)
        requires
            old(self).wf(),
            class < old(self)@.classes.len(),
        ensures
            final(self).wf(),
            final(self).yields(action) == old(self)@.instantiate(class, arguments@),
    {
        match self.find_method(class, INIT_METHOD) {
            Some(initializer) => {
                if arguments.len() != initializer.declaration.params.len() {
                    return self.fail(
                        LoxError::ArgumentCountError {
                            expected: initializer.declaration.params.len(),
                            got: arguments.len(),
                        },
                    );
                }
                let instance = self.add_instance(class);
                let bound = LoxFunction::new(
                    initializer.declaration,
                    self.environment.len(),
                    initializer.is_initializer,
                );
                let handle = self.bind(initializer, instance);
                self.push(Frame::Construct { instance });
                self.call_function(bound, handle, arguments)
            },
            None => {
                if arguments.len() != 0 {
                    return self.fail(
                        LoxError::ArgumentCountError { expected: 0, got: arguments.len() },
                    );
                }
                let instance = self.add_instance(class);
                self.deliver(Value::Instance(instance))
            },
        }
    }

    fn invoke(&mut self, callee: Value, arguments: Vec<Value>) -> (action: Action)
        requires
            old(self).wf(),
        ensures
            final(self).wf(),
            final(self).yields(action) == old(self)@.invoke(callee, arguments@),
    {
        match callee {
            Value::Function(handle) => {
                if handle < self.functions.len() {
                    match self.functions[handle] {
                        Callable::Function(function) => self.call_function(
                            function,
                            handle,
                            arguments,
                        ),
                        Callable::Native(native) => {
                            if arguments.len() != native.arity {
                                self.fail(
                                    LoxError::ArgumentCountError {
                                        expected: native.arity,
                                        got: arguments.len(),
                                    },
                                )
                            } else {
                                self.ask(Request::Clock)
                            }
                        },
                    }
                } else {
                    self.type_error(CAN_ONLY_CALL)
                }
            },
            Value::Class(handle) => {
                if handle < self.classes.len() {
                    self.instantiate(handle, arguments)
                } else {
                    self.type_error(CAN_ONLY_CALL)
                }
            },
            _ => self.type_error(CAN_ONLY_CALL),
        }
    }

    fn arguments(&mut self, callee: Value, arguments: &'a Vec<Expression>, count: usize) -> (action:
        Action)
        requires
            old(self).wf(),
        ensures
            final(self).wf(),
            final(self).yields(action) == old(self)@.arguments(callee, arguments, count as nat),
    {
        if count < arguments.len() {
            self.push(Frame::Arguments { callee, arguments, count });
            self.go(Control::Evaluate(&arguments[count]))
        } else {
            let held = self.operands.len();
            let collected = if count <= held {
                self.operands.split_off(held - count)
            } else {
                self.operands.split_off(0)
            };
            assert(collected@ =~= old(self)@.collected(count as nat));
            assert(self.operands@ =~= old(self)@.kept(count as nat));
            self.invoke(callee, collected)
        }
    }

    fn property(&mut self, object: Value, name: &'a Token) -> (action: Action)
        requires
            old(self).wf(),
        ensures
            final(self).wf(),
            final(self).yields(action) == old(self)@.property(object, name),
    {
        match object {
            Value::Instance(handle) => {
                if handle < self.instances.len() {
                    match self.instances[handle].get(name) {
                        Some(value) => self.deliver(value),
                        None => {
                            let class = self.instances[handle].class();
                            match self.find_method(class, name.lexeme.as_str()) {
                                Some(method) => {
                                    let bound = self.bind(method, handle);
                                    self.deliver(Value::Function(bound))
                                },
                                None => self.fail(
                                    LoxError::UndefinedProperty(name.lexeme.clone()),
                                ),
                            }
                        },
                    }
                } else {
                    self.type_error(ONLY_INSTANCES_HAVE_PROPERTIES)
                }
            },
            _ => self.type_error(ONLY_INSTANCES_HAVE_PROPERTIES),
        }
    }

    fn call_result(&self, function: usize, value: Value) -> (result: Value)
        requires
            self.wf(),
        ensures
            result == self@.call_result(function, value),
    {
        match self.user_function(function) {
            Some(f) => {
                if f.is_initializer && f.closure < self.environment.len() {
                    self.environment.get_at(f.closure, 0, THIS_KEYWORD)
                } else {
                    value
                }
            },
            None => value,
        }
    }

    fn resume(&mut self, frame: Frame<'a>, value: Value) -> (action: Action)
        requires
            old(self).wf(),
            crate::machine::frame_ok(frame, old(self)@.scopes.len()),
        ensures
            final(self).wf(),
            final(self).yields(action) == old(self)@.resume(frame, value),
    {
        match frame {
            Frame::Unary { op } => match op.token_type {
                TokenType::BANG => self.deliver(Value::Boolean(!value.is_truthy())),
                TokenType::MINUS => match value {
                    Value::Number(bits) => self.deliver(Value::Number(negate(bits))),
                    _ => self.type_error(OPERAND_MUST_BE_NUMBER),
                },
                _ => self.type_error(UNKNOWN_OPERATOR),
            },
            Frame::BinaryRight { op, right } => {
                self.push(Frame::BinaryApply { op, left: value });
                self.go(Control::Evaluate(right))
            },
            Frame::BinaryApply { op, left } => self.binary(op, left, value),
            Frame::Logical { op, right } => match op.token_type {
                TokenType::OR => {
                    if value.is_truthy() {
                        self.deliver(value)
                    } else {
                        self.go(Control::Evaluate(right))
                    }
                },
                TokenType::AND => {
                    if value.is_truthy() {
                        self.go(Control::Evaluate(right))
                    } else {
                        self.deliver(value)
                    }
                },
                _ => self.type_error(UNKNOWN_OPERATOR),
            },
            Frame::Assign { id, name } => self.assign_variable(id, name, value),
            Frame::Callee { arguments } => self.arguments(value, arguments, 0),
            Frame::Arguments { callee, arguments, count } => {
                let wanted = arguments.len();
                self.operands.push(value);
                self.arguments(callee, arguments, count + 1)
            },
            Frame::Get { name } => self.property(value, name),
            Frame::SetObject { name, value: expr } => match value {
                Value::Instance(handle) => {
                    if handle < self.instances.len() {
                        self.push(Frame::SetValue { instance: handle, name });
                        self.go(Control::Evaluate(expr))
                    } else {
                        self.type_error(ONLY_INSTANCES_HAVE_FIELDS)
                    }
                },
                _ => self.type_error(ONLY_INSTANCES_HAVE_FIELDS),
            },
            Frame::SetValue { instance, name } => {
                if instance < self.instances.len() {
                    self.set_field(instance, name, value);
                    self.deliver(value)
                } else {
                    self.type_error(ONLY_INSTANCES_HAVE_FIELDS)
                }
            },
            Frame::Discard => self.deliver(Value::Nil),
            Frame::Print => {
                let piece = self.stringify(value);
                self.control = Control::Deliver(Value::Nil);
                Action::Print(piece)
            },
            Frame::Define { name } => {
                self.define(self.current, name.lexeme.as_str(), value);
                self.deliver(Value::Nil)
            },
            Frame::Sequence { statements, next } => {
                if next < statements.len() {
                    self.push(Frame::Sequence { statements, next: next + 1 });
                    self.go(Control::Execute(&statements[next]))
                } else {
                    self.deliver(Value::Nil)
                }
            },
            Frame::Restore { saved } => {
                self.current = saved;
                self.deliver(value)
            },
            Frame::If { then_branch, else_branch } => {
                if value.is_truthy() {
                    self.go(Control::Execute(then_branch))
                } else {
                    match else_branch {
                        Some(statement) => self.go(Control::Execute(&**statement)),
                        None => self.deliver(Value::Nil),
                    }
                }
            },
            Frame::WhileCondition { condition, body } => {
                if value.is_truthy() {
                    self.push(Frame::WhileBody { condition, body });
                    self.go(Control::Execute(body))
                } else {
                    self.deliver(Value::Nil)
                }
            },
            Frame::WhileBody { condition, body } => {
                self.push(Frame::WhileCondition { condition, body });
                self.go(Control::Evaluate(condition))
            },
            Frame::Return => self.go(Control::Return(value)),
            Frame::Superclass { name, methods } => match value {
                Value::Class(handle) => {
                    if handle < self.classes.len() {
                        self.declare_class(name, Some(handle), methods)
                    } else {
                        self.type_error(SUPERCLASS_MUST_BE_CLASS)
                    }
                },
                _ => self.type_error(SUPERCLASS_MUST_BE_CLASS),
            },
            Frame::Call { function, saved } => {
                let result = self.call_result(function, Value::Nil);
                self.current = saved;
                self.deliver(result)
            },
            Frame::Construct { instance } => self.deliver(Value::Instance(instance)),
        }
    }

    fn unwind(&mut self, frame: Frame<'a>, value: Value) -> (action: Action)
        requires
            old(self).wf(),
            crate::machine::frame_ok(frame, old(self)@.scopes.len()),
        ensures
            final(self).wf(),
            final(self).yields(action) == old(self)@.unwind(frame, value),
    {
        match frame {
            Frame::Call { function, saved } => {
                let result = self.call_result(function, value);
                self.current = saved;
                self.deliver(result)
            },
            Frame::Restore { saved } => {
                self.current = saved;
                self.go(Control::Return(value))
            },
            Frame::Arguments { callee, arguments, count } => {
                let held = self.operands.len();
                if count <= held {
                    self.operands.truncate(held - count);
                } else {
                    self.operands.clear();
                }
                self.go(Control::Return(value))
            },
            _ => self.go(Control::Return(value)),
        }
    }

    fn finish(&mut self, value: Value) -> (action: Action)
        ensures
            final(self).yields(action) == old(self)@.finish(value),
    {
        self.control = Control::Idle;
        Action::Finished(value)
    }

    /// Takes one step: the whole of [`State::step`], and nothing else.
    pub fn step(&mut self, event: Event) -> (action: Action)
        requires
            old(self).wf(),
        ensures
            final(self).wf(),
            final(self).yields(action) == old(self)@.step(event),
    {
        match self.control {
            Control::Idle => self.finish(Value::Nil),
            Control::Pending(request) => match event {
                Event::Number(bits) => self.deliver(Value::Number(bits)),
                Event::Resume => self.ask(request),
            },
            Control::Execute(statement) => self.execute(statement),
            Control::Evaluate(expr) => self.evaluate(expr),
            Control::Deliver(value) => match self.frames.pop() {
                Some(frame) => self.resume(frame, value),
                None => self.finish(value),
            },
            Control::Return(value) => match self.frames.pop() {
                Some(frame) => self.unwind(frame, value),
                None => self.finish(value),
            },
        }
    }

    /// Steps until a step hands out something for the caller to do, but no
    /// more than `limit` times after the first step. A program may run
    /// forever; the caller decides how long it lets it.
    pub fn run(&mut self, event: Event, limit: usize) -> (action: Action)
        requires
            old(self).wf(),
        ensures
            final(self).wf(),
            final(self).yields(action) == old(self)@.run(event, limit as nat),
    {
        let mut action = self.step(event);
        let mut left: usize = limit;
        while left > 0 && matches!(action, Action::Continue)
            invariant
                self.wf(),
                old(self)@.run(event, limit as nat) == if left > 0 && action@ is Continue {
                    self@.run(Event::Resume, (left - 1) as nat)
                } else {
                    self.yields(action)
                },
            decreases left,
        {
            action = self.step(Event::Resume);
            left = left - 1;
        }
        action
    }

    /// Loads `statements` to run from the global scope. The steps that
    /// follow carry them out: with a caller that answers every request,
    /// they print what the program prints and end as the program ends.
    pub fn interpret(&mut self, statements: &'a Vec<Statement>)
        requires
            old(self).wf(),
        ensures
            final(self).wf(),
            final(self)@ == old(self)@.load(statements),
    {
        self.frames.clear();
        self.operands.clear();
        self.frames.push(Frame::Sequence { statements, next: 0 });
        self.current = 0;
        self.control = Control::Deliver(Value::Nil);
    }

    /// An interpreter with nothing loaded, whose global scope holds the
    /// built-in `clock`.
    pub fn new() -> (interpreter: Self)
        ensures
            interpreter.wf(),
            interpreter@ == State::initial(),
    {
        let mut environment = Environment::new();
        environment.define(0, CLOCK_FUNCTION, Value::Function(0));
        let mut functions: Vec<Callable<'a>> = Vec::new();
        functions.push(Callable::Native(Native::clock()));
        let interpreter = Interpreter {
            environment,
            current: 0,
            locals: HashMap::new(),
            strings: Vec::new(),
            functions,
            classes: Vec::new(),
            instances: Vec::new(),
            control: Control::Idle,
            frames: Vec::new(),
            operands: Vec::new(),
        };
        assert(interpreter@.scopes =~= State::initial().scopes);
        assert(interpreter@.strings =~= State::initial().strings);
        assert(interpreter@.functions =~= State::initial().functions);
        assert(interpreter@.classes =~= State::initial().classes);
        assert(interpreter@.instances =~= State::initial().instances);
        interpreter
    }

    /// The depth that the resolver recorded for the expression `exp_id`, if
    /// it recorded one.
    pub fn depth_of(&self, exp_id: usize) -> (depth: Option<usize>)
        ensures
            depth == if self@.locals.contains_key(exp_id) {
                Some(self@.locals[exp_id])
            } else {
                None
            },
    {
        match self.locals.get(&exp_id) {
            Some(depth) => Some(*depth),
            None => None,
        }
    }

    /// The value of the global variable `name`, if it is defined.
    pub fn global(&self, name: &str) -> (value: Option<Value>)
        requires
            self.wf(),
        ensures
            value == if self@.scopes[globals() as int].values.contains_key(name@) {
                Some(self@.scopes[globals() as int].values[name@])
            } else {
                None
            },
    {
        match self.environment.holder(0, name) {
            Some(scope) => Some(self.environment.get_at(0, 0, name)),
            None => None,
        }
    }

    /// Records that the expression `exp_id` finds its variable `depth`
    /// scopes out from where it stands.
    pub fn resolve(&mut self, exp_id: usize, depth: usize)
        ensures
            final(self)@ == (State {
                locals: old(self)@.locals.insert(exp_id, depth),
                ..old(self)@
            }),
    {
        self.locals.insert(exp_id, depth);
    }
}

} // verus!
