//! The machine that runs a program one step at a time.
//!
//! A [`State`] holds everything a running program has made, the node of the
//! syntax tree that is being worked on, and the stack of [`Frame`]s that say
//! what remains to be done once that node has a value. [`State::step`] is
//! one step, and the interpreter computes exactly this function. That the
//! steps come to what the program means is proved in [`crate::agreement`].

use vstd::prelude::*;
use crate::callable::{
    inheritance_acyclic, method_of, Callable, LoxClassView, LoxFunction, LoxInstanceView, Native,
};
use crate::constants::errors::{
    CAN_ONLY_CALL, ONLY_INSTANCES_HAVE_FIELDS, ONLY_INSTANCES_HAVE_PROPERTIES,
    OPERANDS_MUST_BE_NUMBERS, OPERANDS_MUST_BE_NUMBERS_OR_STRINGS, OPERAND_MUST_BE_NUMBER,
    SUPERCLASS_MUST_BE_CLASS, SUPER_MUST_BE_CLASS, SUPER_NOT_RESOLVED, THIS_MUST_BE_INSTANCE,
    UNKNOWN_OPERATOR, UNRESOLVED_SCOPE,
};
use crate::constants::{CLOCK_FUNCTION, INIT_METHOD, SUPER_KEYWORD, THIS_KEYWORD};
use crate::environment::{ancestor_of, chains_acyclic, holder_of, local_value, lookup, with_binding, ScopeView};
use crate::error::LoxErrorView;
use crate::grammar::{Expression, Function, Literal, Statement, Token, TokenType};
use crate::render::PieceView;
use crate::value::{number_equal, number_less, number_negated, Value};

verus! {

/// The arithmetic that the interpreter leaves to its caller.
#[derive(Debug, Clone, Copy, PartialEq, Eq, Structural)]
pub enum Arithmetic {
    Add,
    Subtract,
    Multiply,
    Divide,
}

/// What the caller hands to a step.
#[derive(Debug, Clone, Copy, PartialEq, Eq, Structural)]
pub enum Event {
    /// Nothing: go on.
    Resume,
    /// The double that the last step asked for.
    Number(u64),
}

/// A question that only the caller can answer, each with a double.
#[derive(Clone, Copy)]
pub enum Request<'a> {
    /// The result of the operator on two doubles.
    Arithmetic { operator: Arithmetic, left: u64, right: u64 },
    /// The double nearest to a decimal numeral.
    ParseNumber(&'a String),
    /// The seconds since the Unix epoch.
    Clock,
}

/// What the machine works on next.
#[derive(Clone, Copy)]
pub enum Control<'a> {
    /// Nothing is running.
    Idle,
    Execute(&'a Statement),
    Evaluate(&'a Expression),
    /// A value is ready for the topmost frame. A statement that completes
    /// delivers `nil`.
    Deliver(Value),
    /// A `return` is on its way to the call that it leaves.
    Return(Value),
    /// The machine waits for the caller's answer.
    Pending(Request<'a>),
}

/// What remains to be done once the node being worked on has a value.
#[derive(Clone, Copy)]
pub enum Frame<'a> {
    Unary { op: &'a Token },
    BinaryRight { op: &'a Token, right: &'a Expression },
    BinaryApply { op: &'a Token, left: Value },
    Logical { op: &'a Token, right: &'a Expression },
    Assign { id: usize, name: &'a Token },
    Callee { arguments: &'a Vec<Expression> },
    /// The argument at `count` is being evaluated; the values of those
    /// before it are the last `count` operands.
    Arguments { callee: Value, arguments: &'a Vec<Expression>, count: usize },
    Get { name: &'a Token },
    SetObject { name: &'a Token, value: &'a Expression },
    SetValue { instance: usize, name: &'a Token },
    Discard,
    Print,
    Define { name: &'a Token },
    Sequence { statements: &'a Vec<Statement>, next: usize },
    /// Leaves a block: the scope `saved` becomes current again.
    Restore { saved: usize },
    If { then_branch: &'a Statement, else_branch: &'a Option<Box<Statement>> },
    WhileCondition { condition: &'a Expression, body: &'a Statement },
    WhileBody { condition: &'a Expression, body: &'a Statement },
    Return,
    Superclass { name: &'a Token, methods: &'a Vec<Function> },
    /// A call of the function `function`, entered from the scope `saved`.
    Call { function: usize, saved: usize },
    /// A class call: once `init` is done, the instance is the result.
    Construct { instance: usize },
}

/// What a step hands to the caller.
pub enum ActionView {
    /// Nothing: step again.
    Continue,
    Arithmetic { operator: Arithmetic, left: u64, right: u64 },
    ParseNumber(Seq<char>),
    Clock,
    Print(PieceView),
    /// The program, or the expression, has run to its end.
    Finished(Value),
    /// The program has stopped on an error.
    Failed(LoxErrorView),
}

/// Everything that a running program consists of.
pub struct State<'a> {
    pub scopes: Seq<ScopeView>,
    /// The handle of the scope that is current.
    pub current: usize,
    /// The resolution table: for the id of an expression, the number of
    /// scopes between its use and its definition.
    pub locals: Map<usize, usize>,
    pub strings: Seq<Seq<char>>,
    pub functions: Seq<Callable<'a>>,
    pub classes: Seq<LoxClassView>,
    pub instances: Seq<LoxInstanceView>,
    pub control: Control<'a>,
    pub frames: Seq<Frame<'a>>,
    pub operands: Seq<Value>,
}

/// The state after a step, and what the step hands to the caller.
pub struct Outcome<'a> {
    pub state: State<'a>,
    pub action: ActionView,
}

/// The handle of the global scope.
pub open spec fn globals() -> usize {
    0
}

/// The error for an operand or callee of the wrong kind.
pub open spec fn type_error(message: Seq<char>) -> LoxErrorView {
    LoxErrorView::TypeError(message)
}

/// The text of the string with that handle.
pub open spec fn string_at(strings: Seq<Seq<char>>, handle: usize) -> Seq<char> {
    if handle < strings.len() {
        strings[handle as int]
    } else {
        Seq::<char>::empty()
    }
}

/// Equality of values: numbers as doubles, strings by their text, functions,
/// classes and instances by identity; values of different variants differ.
pub open spec fn values_equal(strings: Seq<Seq<char>>, left: Value, right: Value) -> bool {
    match (left, right) {
        (Value::Nil, Value::Nil) => true,
        (Value::Boolean(l), Value::Boolean(r)) => l == r,
        (Value::Number(l), Value::Number(r)) => number_equal(l, r),
        (Value::String(l), Value::String(r)) => string_at(strings, l) == string_at(strings, r),
        (Value::Function(l), Value::Function(r)) => l == r,
        (Value::Class(l), Value::Class(r)) => l == r,
        (Value::Instance(l), Value::Instance(r)) => l == r,
        _ => false,
    }
}

/// The result of an ordering operator on two doubles.
pub open spec fn ordered(operator: TokenType, left: u64, right: u64) -> bool {
    match operator {
        TokenType::LESS => number_less(left, right),
        TokenType::LESS_EQUAL => number_less(left, right) || number_equal(left, right),
        TokenType::GREATER => number_less(right, left),
        _ => number_less(right, left) || number_equal(left, right),
    }
}

/// The operator that an arithmetic token stands for.
pub open spec fn arithmetic_of(operator: TokenType) -> Arithmetic {
    match operator {
        TokenType::PLUS => Arithmetic::Add,
        TokenType::MINUS => Arithmetic::Subtract,
        TokenType::STAR => Arithmetic::Multiply,
        _ => Arithmetic::Divide,
    }
}

/// The variables of a call's scope: the first `count` parameters, each bound
/// to the argument at its place.
pub open spec fn bound_parameters(params: Seq<Token>, arguments: Seq<Value>, count: nat) -> Map<
    Seq<char>,
    Value,
>
    decreases count,
{
    if count == 0 || count > params.len() || count > arguments.len() {
        Map::<Seq<char>, Value>::empty()
    } else {
        bound_parameters(params, arguments, (count - 1) as nat).insert(
            params[count - 1].lexeme@,
            arguments[count - 1],
        )
    }
}

/// The method table of a class whose first `count` methods have the function
/// handles from `first` on: a later method replaces an earlier one of its name.
pub open spec fn method_table(methods: Seq<Function>, first: nat, count: nat) -> Map<
    Seq<char>,
    usize,
>
    decreases count,
{
    if count == 0 || count > methods.len() {
        Map::<Seq<char>, usize>::empty()
    } else {
        method_table(methods, first, (count - 1) as nat).insert(
            methods[count - 1].name.lexeme@,
            (first + count - 1) as usize,
        )
    }
}

/// The function object of a method declared with the scope `closure` current.
pub open spec fn method_object<'a>(method: &'a Function, closure: usize) -> Callable<'a> {
    Callable::Function(
        LoxFunction {
            declaration: method,
            closure,
            is_initializer: method.name.lexeme@ == INIT_METHOD@,
        },
    )
}

/// The function tables grows by one object per method, in order.
pub open spec fn with_methods<'a>(
    functions: Seq<Callable<'a>>,
    methods: &'a Vec<Function>,
    closure: usize,
    count: nat,
) -> Seq<Callable<'a>>
    decreases count,
{
    if count == 0 || count > methods@.len() {
        functions
    } else {
        with_methods(functions, methods, closure, (count - 1) as nat).push(
            method_object(&methods[count - 1], closure),
        )
    }
}

/// The scope handles inside a frame name scopes that exist, and a call
/// that waits for an argument has one left to wait for.
pub open spec fn frame_ok(frame: Frame, scopes: nat) -> bool {
    match frame {
        Frame::Restore { saved } => saved < scopes,
        Frame::Call { function, saved } => saved < scopes,
        Frame::Arguments { callee, arguments, count } => count < arguments@.len(),
        _ => true,
    }
}

/// The closure of a function names a scope that exists.
pub open spec fn callable_ok(callable: Callable, scopes: nat) -> bool {
    match callable {
        Callable::Function(function) => function.closure < scopes,
        Callable::Native(_) => true,
    }
}

/// The action that puts a request to the caller.
pub open spec fn asking(request: Request) -> ActionView {
    match request {
        Request::Arithmetic { operator, left, right } => ActionView::Arithmetic {
            operator,
            left,
            right,
        },
        Request::ParseNumber(numeral) => ActionView::ParseNumber(numeral@),
        Request::Clock => ActionView::Clock,
    }
}

impl<'a> State<'a> {
    /// The handles that the state keeps name what exists, and neither scopes
    /// nor classes form a cycle.
    pub open spec fn wf(self) -> bool {
        &&& chains_acyclic(self.scopes)
        &&& self.scopes.len() > 0
        &&& self.current < self.scopes.len()
        &&& inheritance_acyclic(self.classes)
        &&& forall|i: int|
            0 <= i < self.frames.len() ==> frame_ok(#[trigger] self.frames[i], self.scopes.len())
        &&& forall|i: int|
            0 <= i < self.functions.len() ==> callable_ok(
                #[trigger] self.functions[i],
                self.scopes.len(),
            )
        &&& forall|i: int|
            0 <= i < self.instances.len() ==> (#[trigger] self.instances[i]).class
                < self.classes.len()
    }

    /// Goes on with `control`, and hands the caller nothing.
    pub open spec fn go(self, control: Control<'a>) -> Outcome<'a> {
        Outcome { state: State { control, ..self }, action: ActionView::Continue }
    }

    /// Hands `value` to the topmost frame.
    pub open spec fn deliver(self, value: Value) -> Outcome<'a> {
        self.go(Control::Deliver(value))
    }

    /// Stops the program: nothing remains to be done, and the global scope
    /// is current again.
    pub open spec fn fail(self, error: LoxErrorView) -> Outcome<'a> {
        Outcome {
            state: State {
                control: Control::Idle,
                frames: Seq::empty(),
                operands: Seq::empty(),
                current: globals(),
                ..self
            },
            action: ActionView::Failed(error),
        }
    }

    /// Puts a request to the caller and waits for the answer.
    pub open spec fn ask(self, request: Request<'a>) -> Outcome<'a> {
        Outcome {
            state: State { control: Control::Pending(request), ..self },
            action: asking(request),
        }
    }

    /// The state with `frame` on top of the stack.
    pub open spec fn push(self, frame: Frame<'a>) -> State<'a> {
        State { frames: self.frames.push(frame), ..self }
    }

    /// Sets `name` in the scope `scope` itself.
    pub open spec fn define(self, scope: int, name: Seq<char>, value: Value) -> State<'a> {
        State { scopes: with_binding(self.scopes, scope, name, value), ..self }
    }

    /// Makes a scope enclosed by `enclosing` that holds `values`; its handle
    /// is the number of scopes before.
    pub open spec fn enclose(self, enclosing: usize, values: Map<Seq<char>, Value>) -> State<'a> {
        State { scopes: self.scopes.push(ScopeView { values, parent: Some(enclosing) }), ..self }
    }

    /// The printable form of a value.
    pub open spec fn printable(self, value: Value) -> PieceView {
        match value {
            Value::Nil => PieceView::Text("nil"@),
            Value::Boolean(b) => PieceView::Text(
                if b {
                    "true"@
                } else {
                    "false"@
                },
            ),
            Value::Number(bits) => PieceView::Number(bits),
            Value::String(handle) => PieceView::Text(string_at(self.strings, handle)),
            Value::Function(handle) => PieceView::Text(
                if handle < self.functions.len() {
                    match self.functions[handle as int] {
                        Callable::Function(function) => "<fn "@
                            + function.declaration.name.lexeme@ + ">"@,
                        Callable::Native(_) => "<native fn>"@,
                    }
                } else {
                    Seq::<char>::empty()
                },
            ),
            Value::Class(handle) => PieceView::Text(
                if handle < self.classes.len() {
                    self.classes[handle as int].name
                } else {
                    Seq::<char>::empty()
                },
            ),
            Value::Instance(handle) => PieceView::Text(
                if handle < self.instances.len() && self.instances[handle as int].class
                    < self.classes.len() {
                    self.classes[self.instances[handle as int].class as int].name + " instance"@
                } else {
                    Seq::<char>::empty()
                },
            ),
        }
    }

    /// The function declared by the program that `handle` names, if any.
    pub open spec fn user_function(self, handle: usize) -> Option<LoxFunction<'a>> {
        if handle < self.functions.len() {
            match self.functions[handle as int] {
                Callable::Function(function) => Some(function),
                Callable::Native(_) => None,
            }
        } else {
            None
        }
    }

    /// The method `name` of the class `class` or of its nearest superclass
    /// that has one.
    pub open spec fn find_method(self, class: usize, name: Seq<char>) -> Option<LoxFunction<'a>> {
        match method_of(self.classes, class as int, name) {
            Some(handle) => self.user_function(handle),
            None => None,
        }
    }

    /// A value constant.
    pub open spec fn literal(self, literal: &'a Literal) -> Outcome<'a> {
        match literal {
            Literal::Nil => self.deliver(Value::Nil),
            Literal::Boolean(b) => self.deliver(Value::Boolean(*b)),
            Literal::String(text) => State { strings: self.strings.push(text@), ..self }.deliver(
                Value::String(self.strings.len() as usize),
            ),
            Literal::Number(numeral) => self.ask(Request::ParseNumber(numeral)),
        }
    }

    /// A variable: at the resolved depth if the resolver bound the
    /// expression, else among the globals.
    pub open spec fn variable(self, id: usize, name: &'a Token) -> Outcome<'a> {
        if self.locals.contains_key(id) {
            match ancestor_of(self.scopes, self.current as int, self.locals[id] as nat) {
                Some(scope) => self.deliver(local_value(self.scopes, scope, name.lexeme@)),
                None => self.fail(type_error(UNRESOLVED_SCOPE@)),
            }
        } else {
            match lookup(self.scopes, globals() as int, name.lexeme@) {
                Some(value) => self.deliver(value),
                None => self.fail(
                    LoxErrorView::UndefinedVariable { name: name.lexeme@, line: name.line },
                ),
            }
        }
    }

    /// An assignment, once its value is known.
    pub open spec fn assign(self, id: usize, name: &'a Token, value: Value) -> Outcome<'a> {
        if self.locals.contains_key(id) {
            match ancestor_of(self.scopes, self.current as int, self.locals[id] as nat) {
                Some(scope) => self.define(scope, name.lexeme@, value).deliver(value),
                None => self.fail(type_error(UNRESOLVED_SCOPE@)),
            }
        } else {
            match holder_of(self.scopes, globals() as int, name.lexeme@) {
                Some(scope) => self.define(scope, name.lexeme@, value).deliver(value),
                None => self.fail(
                    LoxErrorView::UndefinedVariable { name: name.lexeme@, line: name.line },
                ),
            }
        }
    }

    /// The function that binding `method` makes: the method with a closure
    /// of its own, the scope that is made next.
    pub open spec fn bound_method(self, method: LoxFunction<'a>) -> LoxFunction<'a> {
        LoxFunction {
            declaration: method.declaration,
            closure: self.scopes.len() as usize,
            is_initializer: method.is_initializer,
        }
    }

    /// The method `method` bound to the instance `instance`: a new function
    /// whose closure holds `this` and encloses the method's own. Its handle
    /// is the number of functions before.
    pub open spec fn bind(self, method: LoxFunction<'a>, instance: usize) -> State<'a> {
        State {
            functions: self.functions.push(Callable::Function(self.bound_method(method))),
            ..self.enclose(
                method.closure,
                Map::<Seq<char>, Value>::empty().insert(THIS_KEYWORD@, Value::Instance(instance)),
            )
        }
    }

    /// `super.method`: the method is looked up from the superclass and bound
    /// to the receiver.
    pub open spec fn super_method(self, id: usize, method: &'a Token) -> Outcome<'a> {
        if !self.locals.contains_key(id) {
            self.fail(type_error(SUPER_NOT_RESOLVED@))
        } else {
            let depth = self.locals[id];
            match ancestor_of(self.scopes, self.current as int, depth as nat) {
                None => self.fail(type_error(UNRESOLVED_SCOPE@)),
                Some(scope) => match local_value(self.scopes, scope, SUPER_KEYWORD@) {
                    Value::Class(superclass) => if depth == 0 {
                        self.fail(type_error(THIS_MUST_BE_INSTANCE@))
                    } else {
                        match ancestor_of(self.scopes, self.current as int, (depth - 1) as nat) {
                            None => self.fail(type_error(UNRESOLVED_SCOPE@)),
                            Some(inner) => match local_value(self.scopes, inner, THIS_KEYWORD@) {
                                Value::Instance(receiver) => match self.find_method(
                                    superclass,
                                    method.lexeme@,
                                ) {
                                    Some(found) => self.bind(found, receiver).deliver(
                                        Value::Function(self.functions.len() as usize),
                                    ),
                                    None => self.fail(
                                        LoxErrorView::UndefinedProperty(method.lexeme@),
                                    ),
                                },
                                _ => self.fail(type_error(THIS_MUST_BE_INSTANCE@)),
                            },
                        }
                    },
                    _ => self.fail(type_error(SUPER_MUST_BE_CLASS@)),
                },
            }
        }
    }

    /// The first step of an expression.
    pub open spec fn evaluate(self, expr: &'a Expression) -> Outcome<'a> {
        match expr {
            Expression::Assign { id, name, value } => self.push(
                Frame::Assign { id: *id, name },
            ).go(Control::Evaluate(&**value)),
            Expression::Binary { left, op, right } => self.push(
                Frame::BinaryRight { op, right: &**right },
            ).go(Control::Evaluate(&**left)),
            Expression::Call { callee, paren_line, arguments } => self.push(
                Frame::Callee { arguments },
            ).go(Control::Evaluate(&**callee)),
            Expression::Get { object, name } => self.push(Frame::Get { name }).go(
                Control::Evaluate(&**object),
            ),
            Expression::Grouping(inner) => self.go(Control::Evaluate(&**inner)),
            Expression::Literal(literal) => self.literal(literal),
            Expression::Logical { left, op, right } => self.push(
                Frame::Logical { op, right: &**right },
            ).go(Control::Evaluate(&**left)),
            Expression::SetProperty { object, name, value } => self.push(
                Frame::SetObject { name, value: &**value },
            ).go(Control::Evaluate(&**object)),
            Expression::Super { id, keyword, method } => self.super_method(*id, method),
            Expression::This { id, keyword } => self.variable(*id, keyword),
            Expression::Unary { op, right } => self.push(Frame::Unary { op }).go(
                Control::Evaluate(&**right),
            ),
            Expression::Variable { id, name } => self.variable(*id, name),
        }
    }

    /// Runs `statements` in the scope `scope`; when they are done, or left
    /// by a `return`, the scope that is current now is current again.
    pub open spec fn execute_block(self, statements: &'a Vec<Statement>, scope: usize) -> Outcome<
        'a,
    > {
        State { current: scope, ..self }.push(Frame::Restore { saved: self.current }).push(
            Frame::Sequence { statements, next: 0 },
        ).deliver(Value::Nil)
    }

    /// The class declaration proper, once the superclass is known.
    pub open spec fn declare_class(
        self,
        name: &'a Token,
        superclass: Option<usize>,
        methods: &'a Vec<Function>,
    ) -> Outcome<'a> {
        let declared = self.define(self.current as int, name.lexeme@, Value::Nil);
        let (scoped, closure) = match superclass {
            Some(handle) => (
                declared.enclose(
                    self.current,
                    Map::<Seq<char>, Value>::empty().insert(SUPER_KEYWORD@, Value::Class(handle)),
                ),
                self.scopes.len() as usize,
            ),
            None => (declared, self.current),
        };
        let class = LoxClassView {
            name: name.lexeme@,
            superclass,
            methods: method_table(methods@, self.functions.len(), methods@.len()),
        };
        State {
            functions: with_methods(self.functions, methods, closure, methods@.len()),
            classes: self.classes.push(class),
            ..scoped
        }.define(self.current as int, name.lexeme@, Value::Class(self.classes.len() as usize)).deliver(
            Value::Nil,
        )
    }

    /// The first step of a statement.
    pub open spec fn execute(self, statement: &'a Statement) -> Outcome<'a> {
        match statement {
            Statement::Block(statements) => self.enclose(
                self.current,
                Map::<Seq<char>, Value>::empty(),
            ).execute_block(statements, self.scopes.len() as usize),
            Statement::Class { name, superclass, methods } => match superclass {
                Some(expr) => self.push(Frame::Superclass { name, methods }).go(
                    Control::Evaluate(expr),
                ),
                None => self.declare_class(name, None, methods),
            },
            Statement::Expression(expr) => self.push(Frame::Discard).go(Control::Evaluate(expr)),
            Statement::Function(declaration) => State {
                functions: self.functions.push(
                    Callable::Function(
                        LoxFunction { declaration, closure: self.current, is_initializer: false },
                    ),
                ),
                ..self
            }.define(
                self.current as int,
                declaration.name.lexeme@,
                Value::Function(self.functions.len() as usize),
            ).deliver(Value::Nil),
            Statement::If { condition, then_branch, else_branch } => self.push(
                Frame::If { then_branch: &**then_branch, else_branch },
            ).go(Control::Evaluate(condition)),
            Statement::Print(expr) => self.push(Frame::Print).go(Control::Evaluate(expr)),
            Statement::Return { keyword, value } => match value {
                Some(expr) => self.push(Frame::Return).go(Control::Evaluate(expr)),
                None => self.go(Control::Return(Value::Nil)),
            },
            Statement::Variable { name, init } => match init {
                Some(expr) => self.push(Frame::Define { name }).go(Control::Evaluate(expr)),
                None => self.define(self.current as int, name.lexeme@, Value::Nil).deliver(
                    Value::Nil,
                ),
            },
            Statement::While { condition, body } => self.push(
                Frame::WhileCondition { condition, body: &**body },
            ).go(Control::Evaluate(condition)),
        }
    }

    /// A binary operator, once both operands are known.
    pub open spec fn binary(self, op: &'a Token, left: Value, right: Value) -> Outcome<'a> {
        match op.token_type {
            TokenType::PLUS => match (left, right) {
                (Value::Number(l), Value::Number(r)) => self.ask(
                    Request::Arithmetic { operator: Arithmetic::Add, left: l, right: r },
                ),
                (Value::String(l), Value::String(r)) => State {
                    strings: self.strings.push(
                        string_at(self.strings, l) + string_at(self.strings, r),
                    ),
                    ..self
                }.deliver(Value::String(self.strings.len() as usize)),
                _ => self.fail(type_error(OPERANDS_MUST_BE_NUMBERS_OR_STRINGS@)),
            },
            TokenType::MINUS | TokenType::STAR | TokenType::SLASH => match (left, right) {
                (Value::Number(l), Value::Number(r)) => self.ask(
                    Request::Arithmetic { operator: arithmetic_of(op.token_type), left: l, right: r },
                ),
                _ => self.fail(type_error(OPERANDS_MUST_BE_NUMBERS@)),
            },
            TokenType::LESS | TokenType::LESS_EQUAL | TokenType::GREATER | TokenType::GREATER_EQUAL => match (
                left,
                right,
            ) {
                (Value::Number(l), Value::Number(r)) => self.deliver(
                    Value::Boolean(ordered(op.token_type, l, r)),
                ),
                _ => self.fail(type_error(OPERANDS_MUST_BE_NUMBERS@)),
            },
            TokenType::EQUAL_EQUAL => self.deliver(
                Value::Boolean(values_equal(self.strings, left, right)),
            ),
            TokenType::BANG_EQUAL => self.deliver(
                Value::Boolean(!values_equal(self.strings, left, right)),
            ),
            _ => self.fail(type_error(UNKNOWN_OPERATOR@)),
        }
    }

    /// A call of a function of the program: an arity error, or a new scope
    /// that encloses the closure and binds the parameters, in which the body
    /// runs as a block.
    pub open spec fn call_function(
        self,
        function: LoxFunction<'a>,
        handle: usize,
        arguments: Seq<Value>,
    ) -> Outcome<'a> {
        let params = function.declaration.params@;
        if arguments.len() != params.len() {
            self.fail(
                LoxErrorView::ArgumentCountError {
                    expected: params.len() as usize,
                    got: arguments.len() as usize,
                },
            )
        } else {
            self.enclose(function.closure, bound_parameters(params, arguments, params.len())).push(
                Frame::Call { function: handle, saved: self.current },
            ).execute_block(&function.declaration.body, self.scopes.len() as usize)
        }
    }

    /// A call of a class: an arity error, or a new instance, on which `init`
    /// runs if the class has it.
    pub open spec fn instantiate(self, class: usize, arguments: Seq<Value>) -> Outcome<'a> {
        let instance = self.instances.len() as usize;
        let made = State {
            instances: self.instances.push(
                LoxInstanceView { class, fields: Map::<Seq<char>, Value>::empty() },
            ),
            ..self
        };
        match self.find_method(class, INIT_METHOD@) {
            Some(initializer) => if arguments.len() != initializer.declaration.params@.len() {
                self.fail(
                    LoxErrorView::ArgumentCountError {
                        expected: initializer.declaration.params@.len() as usize,
                        got: arguments.len() as usize,
                    },
                )
            } else {
                made.bind(initializer, instance).push(Frame::Construct { instance }).call_function(
                    made.bound_method(initializer),
                    made.functions.len() as usize,
                    arguments,
                )
            },
            None => if arguments.len() != 0 {
                self.fail(
                    LoxErrorView::ArgumentCountError {
                        expected: 0,
                        got: arguments.len() as usize,
                    },
                )
            } else {
                made.deliver(Value::Instance(instance))
            },
        }
    }

    /// A call, once the callee and all arguments are known.
    pub open spec fn invoke(self, callee: Value, arguments: Seq<Value>) -> Outcome<'a> {
        match callee {
            Value::Function(handle) => if handle < self.functions.len() {
                match self.functions[handle as int] {
                    Callable::Function(function) => self.call_function(function, handle, arguments),
                    Callable::Native(native) => if arguments.len() != native.arity {
                        self.fail(
                            LoxErrorView::ArgumentCountError {
                                expected: native.arity,
                                got: arguments.len() as usize,
                            },
                        )
                    } else {
                        self.ask(Request::Clock)
                    },
                }
            } else {
                self.fail(type_error(CAN_ONLY_CALL@))
            },
            Value::Class(handle) => if handle < self.classes.len() {
                self.instantiate(handle, arguments)
            } else {
                self.fail(type_error(CAN_ONLY_CALL@))
            },
            _ => self.fail(type_error(CAN_ONLY_CALL@)),
        }
    }

    /// The last `count` operands: the arguments evaluated so far.
    pub open spec fn collected(self, count: nat) -> Seq<Value> {
        if count <= self.operands.len() {
            self.operands.skip(self.operands.len() - count)
        } else {
            self.operands
        }
    }

    /// The operands below the last `count`.
    pub open spec fn kept(self, count: nat) -> Seq<Value> {
        if count <= self.operands.len() {
            self.operands.take(self.operands.len() - count)
        } else {
            Seq::<Value>::empty()
        }
    }

    /// The next argument of a call of which `count` arguments are
    /// evaluated, or the call itself when none is left.
    pub open spec fn arguments(
        self,
        callee: Value,
        arguments: &'a Vec<Expression>,
        count: nat,
    ) -> Outcome<'a> {
        if count < arguments@.len() {
            self.push(Frame::Arguments { callee, arguments, count: count as usize }).go(
                Control::Evaluate(&arguments[count as int]),
            )
        } else {
            State { operands: self.kept(count), ..self }.invoke(callee, self.collected(count))
        }
    }

    /// A property read, once the object is known: a field of the instance,
    /// else a method of its class chain bound to it.
    pub open spec fn property(self, object: Value, name: &'a Token) -> Outcome<'a> {
        match object {
            Value::Instance(handle) => if handle < self.instances.len() {
                let instance = self.instances[handle as int];
                if instance.fields.contains_key(name.lexeme@) {
                    self.deliver(instance.fields[name.lexeme@])
                } else {
                    match self.find_method(instance.class, name.lexeme@) {
                        Some(method) => self.bind(method, handle).deliver(
                            Value::Function(self.functions.len() as usize),
                        ),
                        None => self.fail(LoxErrorView::UndefinedProperty(name.lexeme@)),
                    }
                }
            } else {
                self.fail(type_error(ONLY_INSTANCES_HAVE_PROPERTIES@))
            },
            _ => self.fail(type_error(ONLY_INSTANCES_HAVE_PROPERTIES@)),
        }
    }

    /// The result of a call that is left with `value`: the receiver if the
    /// function is an initializer, else `value`.
    pub open spec fn call_result(self, function: usize, value: Value) -> Value {
        match self.user_function(function) {
            Some(f) => if f.is_initializer && f.closure < self.scopes.len() {
                local_value(self.scopes, f.closure as int, THIS_KEYWORD@)
            } else {
                value
            },
            None => value,
        }
    }

    /// What the frame `frame`, taken off the stack, does with `value`.
    pub open spec fn resume(self, frame: Frame<'a>, value: Value) -> Outcome<'a> {
        match frame {
            Frame::Unary { op } => match op.token_type {
                TokenType::BANG => self.deliver(Value::Boolean(!value.truthy())),
                TokenType::MINUS => match value {
                    Value::Number(bits) => self.deliver(Value::Number(number_negated(bits))),
                    _ => self.fail(type_error(OPERAND_MUST_BE_NUMBER@)),
                },
                _ => self.fail(type_error(UNKNOWN_OPERATOR@)),
            },
            Frame::BinaryRight { op, right } => self.push(
                Frame::BinaryApply { op, left: value },
            ).go(Control::Evaluate(right)),
            Frame::BinaryApply { op, left } => self.binary(op, left, value),
            Frame::Logical { op, right } => match op.token_type {
                TokenType::OR => if value.truthy() {
                    self.deliver(value)
                } else {
                    self.go(Control::Evaluate(right))
                },
                TokenType::AND => if value.truthy() {
                    self.go(Control::Evaluate(right))
                } else {
                    self.deliver(value)
                },
                _ => self.fail(type_error(UNKNOWN_OPERATOR@)),
            },
            Frame::Assign { id, name } => self.assign(id, name, value),
            Frame::Callee { arguments } => self.arguments(value, arguments, 0),
            Frame::Arguments { callee, arguments, count } => State {
                operands: self.operands.push(value),
                ..self
            }.arguments(callee, arguments, (count + 1) as nat),
            Frame::Get { name } => self.property(value, name),
            Frame::SetObject { name, value: expr } => match value {
                Value::Instance(handle) => if handle < self.instances.len() {
                    self.push(Frame::SetValue { instance: handle, name }).go(Control::Evaluate(expr))
                } else {
                    self.fail(type_error(ONLY_INSTANCES_HAVE_FIELDS@))
                },
                _ => self.fail(type_error(ONLY_INSTANCES_HAVE_FIELDS@)),
            },
            Frame::SetValue { instance, name } => if instance < self.instances.len() {
                let before = self.instances[instance as int];
                State {
                    instances: self.instances.update(
                        instance as int,
                        LoxInstanceView {
                            fields: before.fields.insert(name.lexeme@, value),
                            ..before
                        },
                    ),
                    ..self
                }.deliver(value)
            } else {
                self.fail(type_error(ONLY_INSTANCES_HAVE_FIELDS@))
            },
            Frame::Discard => self.deliver(Value::Nil),
            Frame::Print => Outcome {
                state: State { control: Control::Deliver(Value::Nil), ..self },
                action: ActionView::Print(self.printable(value)),
            },
            Frame::Define { name } => self.define(self.current as int, name.lexeme@, value).deliver(
                Value::Nil,
            ),
            Frame::Sequence { statements, next } => if next < statements@.len() {
                self.push(Frame::Sequence { statements, next: (next + 1) as usize }).go(
                    Control::Execute(&statements[next as int]),
                )
            } else {
                self.deliver(Value::Nil)
            },
            Frame::Restore { saved } => State { current: saved, ..self }.deliver(value),
            Frame::If { then_branch, else_branch } => if value.truthy() {
                self.go(Control::Execute(then_branch))
            } else {
                match else_branch {
                    Some(statement) => self.go(Control::Execute(&**statement)),
                    None => self.deliver(Value::Nil),
                }
            },
            Frame::WhileCondition { condition, body } => if value.truthy() {
                self.push(Frame::WhileBody { condition, body }).go(Control::Execute(body))
            } else {
                self.deliver(Value::Nil)
            },
            Frame::WhileBody { condition, body } => self.push(
                Frame::WhileCondition { condition, body },
            ).go(Control::Evaluate(condition)),
            Frame::Return => self.go(Control::Return(value)),
            Frame::Superclass { name, methods } => match value {
                Value::Class(handle) => if handle < self.classes.len() {
                    self.declare_class(name, Some(handle), methods)
                } else {
                    self.fail(type_error(SUPERCLASS_MUST_BE_CLASS@))
                },
                _ => self.fail(type_error(SUPERCLASS_MUST_BE_CLASS@)),
            },
            Frame::Call { function, saved } => State { current: saved, ..self }.deliver(
                self.call_result(function, Value::Nil),
            ),
            Frame::Construct { instance } => self.deliver(Value::Instance(instance)),
        }
    }

    /// What a `return` carrying `value` does to the frame `frame`, taken off
    /// the stack: the call that it leaves receives the value, a block gives
    /// back its scope, and every other frame is dropped.
    pub open spec fn unwind(self, frame: Frame<'a>, value: Value) -> Outcome<'a> {
        match frame {
            Frame::Call { function, saved } => State { current: saved, ..self }.deliver(
                self.call_result(function, value),
            ),
            Frame::Restore { saved } => State { current: saved, ..self }.go(Control::Return(value)),
            Frame::Arguments { callee, arguments, count } => State {
                operands: self.kept(count as nat),
                ..self
            }.go(Control::Return(value)),
            _ => self.go(Control::Return(value)),
        }
    }

    /// The state without its topmost frame.
    pub open spec fn popped(self) -> State<'a> {
        State { frames: self.frames.drop_last(), ..self }
    }

    /// The end of the run with `value`.
    pub open spec fn finish(self, value: Value) -> Outcome<'a> {
        Outcome {
            state: State { control: Control::Idle, ..self },
            action: ActionView::Finished(value),
        }
    }

    /// One step of the machine.
    pub open spec fn step(self, event: Event) -> Outcome<'a> {
        match self.control {
            Control::Idle => self.finish(Value::Nil),
            Control::Pending(request) => match event {
                Event::Number(bits) => self.deliver(Value::Number(bits)),
                Event::Resume => self.ask(request),
            },
            Control::Execute(statement) => self.execute(statement),
            Control::Evaluate(expr) => self.evaluate(expr),
            Control::Deliver(value) => if self.frames.len() == 0 {
                self.finish(value)
            } else {
                self.popped().resume(self.frames.last(), value)
            },
            Control::Return(value) => if self.frames.len() == 0 {
                self.finish(value)
            } else {
                self.popped().unwind(self.frames.last(), value)
            },
        }
    }

    /// Steps until a step hands the caller something, but no more than
    /// `limit` times after the first step.
    pub open spec fn run(self, event: Event, limit: nat) -> Outcome<'a>
        decreases limit,
    {
        let first = self.step(event);
        if limit == 0 || !(first.action is Continue) {
            first
        } else {
            first.state.run(Event::Resume, (limit - 1) as nat)
        }
    }

    /// The state before anything is loaded: the global scope holds the
    /// built-in `clock`, the first function, and nothing else exists.
    pub open spec fn initial() -> State<'a> {
        State {
            scopes: seq![
                ScopeView {
                    values: Map::<Seq<char>, Value>::empty().insert(
                        CLOCK_FUNCTION@,
                        Value::Function(0),
                    ),
                    parent: None,
                },
            ],
            current: globals(),
            locals: Map::<usize, usize>::empty(),
            strings: Seq::empty(),
            functions: seq![Callable::Native(Native { arity: 0 })],
            classes: Seq::empty(),
            instances: Seq::empty(),
            control: Control::Idle,
            frames: Seq::empty(),
            operands: Seq::empty(),
        }
    }

    /// The state that runs `statements` from the global scope.
    pub open spec fn load(self, statements: &'a Vec<Statement>) -> State<'a> {
        State {
            control: Control::Deliver(Value::Nil),
            frames: seq![Frame::Sequence { statements, next: 0 }],
            operands: Seq::empty(),
            current: globals(),
            ..self
        }
    }
}

/// Equality is reflexive on every value but a double that is not a number.
pub proof fn lemma_equality_reflexive(strings: Seq<Seq<char>>, value: Value)
    requires
        value matches Value::Number(bits) ==> !crate::value::is_nan(bits),
    ensures
        values_equal(strings, value, value),
{
}

/// `==` and `!=` never raise an error: whatever the operands are, the step
/// delivers a boolean, and the two operators deliver opposite ones.
pub proof fn lemma_equality_never_fails(state: State, op: &Token, left: Value, right: Value)
    requires
        op.token_type == TokenType::EQUAL_EQUAL || op.token_type == TokenType::BANG_EQUAL,
    ensures
        state.binary(op, left, right) == state.deliver(
            Value::Boolean(
                values_equal(state.strings, left, right) == (op.token_type
                    == TokenType::EQUAL_EQUAL),
            ),
        ),
{
}

/// A binary expression evaluates its left operand first and its right
/// operand next, and applies the operator only then.
pub proof fn lemma_operands_left_to_right<'a>(
    state: State<'a>,
    left: &'a Expression,
    op: &'a Token,
    right: &'a Expression,
    first: Value,
    second: Value,
)
    ensures
        ({
            let started = state.push(Frame::BinaryRight { op, right }).go(Control::Evaluate(left));
            let halfway = state.resume(Frame::BinaryRight { op, right }, first);
            &&& started.state.control == Control::Evaluate(left)
            &&& started.state.frames.last() == (Frame::BinaryRight { op, right })
            &&& halfway.state.control == Control::Evaluate(right)
            &&& halfway.state.frames.last() == (Frame::BinaryApply { op, left: first })
            &&& state.resume(Frame::BinaryApply { op, left: first }, second) == state.binary(
                op,
                first,
                second,
            )
        }),
{
}

/// The arguments of a call are evaluated in the order they are written:
/// with `count` of them evaluated, the next one is the argument at `count`,
/// and the call is made once none is left, with the arguments in order.
pub proof fn lemma_arguments_in_order<'a>(
    state: State<'a>,
    callee: Value,
    arguments: &'a Vec<Expression>,
    count: usize,
    value: Value,
)
    requires
        count < arguments@.len(),
        count <= state.operands.len(),
    ensures
        ({
            let waiting = Frame::Arguments { callee, arguments, count };
            let next = state.resume(waiting, value);
            let evaluated = state.operands.push(value);
            if count + 1 < arguments@.len() {
                &&& next.state.control == Control::Evaluate(&arguments[count + 1])
                &&& next.state.operands == evaluated
                &&& next.state.frames.last() == (Frame::Arguments {
                    callee,
                    arguments,
                    count: (count + 1) as usize,
                })
            } else {
                next == (State {
                    operands: state.operands.take(state.operands.len() - count),
                    ..state
                }).invoke(callee, evaluated.skip(state.operands.len() - count))
            }
        }),
{
    let evaluated = state.operands.push(value);
    assert(evaluated.take(evaluated.len() - (count + 1)) =~= state.operands.take(
        state.operands.len() - count,
    ));
}

/// Arity: a call of a function of the program with a number of arguments
/// other than the number of its parameters is an arity error, and it makes
/// nothing and changes nothing: no scope, no object, no variable.
pub proof fn lemma_arity_mismatch<'a>(state: State<'a>, callee: usize, arguments: Seq<Value>)
    requires
        state.user_function(callee) is Some,
        arguments.len() != state.user_function(callee)->Some_0.declaration.params@.len(),
    ensures
        ({
            let after = state.invoke(Value::Function(callee), arguments);
            &&& after.action == ActionView::Failed(
                LoxErrorView::ArgumentCountError {
                    expected: state.user_function(callee)->Some_0.declaration.params@.len() as usize,
                    got: arguments.len() as usize,
                },
            )
            &&& after.state.scopes == state.scopes
            &&& after.state.strings == state.strings
            &&& after.state.functions == state.functions
            &&& after.state.classes == state.classes
            &&& after.state.instances == state.instances
            &&& after.state.locals == state.locals
            &&& after.state.control == Control::Idle
        }),
{
}

/// Binding a method to an instance makes a function whose closure holds
/// the instance as `this`.
pub proof fn lemma_bound_method_holds_receiver<'a>(
    state: State<'a>,
    method: LoxFunction<'a>,
    instance: usize,
)
    requires
        state.functions.len() <= usize::MAX,
        state.scopes.len() <= usize::MAX,
    ensures
        ({
            let bound = state.bind(method, instance);
            let handle = state.functions.len() as usize;
            &&& bound.user_function(handle) == Some(state.bound_method(method))
            &&& state.bound_method(method).is_initializer == method.is_initializer
            &&& local_value(
                bound.scopes,
                state.bound_method(method).closure as int,
                THIS_KEYWORD@,
            ) == Value::Instance(instance)
        }),
{
    let bound = state.bind(method, instance);
    assert(bound.functions[state.functions.len() as int] == Callable::Function(
        state.bound_method(method),
    ));
}

/// Initializer return: whatever a call of an initializer is left with, by
/// a `return;` or by the end of its body, its result is the `this` of its
/// closure; and a class call delivers the new instance whatever `init`
/// delivered.
pub proof fn lemma_initializer_returns_receiver<'a>(
    state: State<'a>,
    function: usize,
    saved: usize,
    value: Value,
    instance: usize,
)
    requires
        state.user_function(function) is Some,
        state.user_function(function)->Some_0.is_initializer,
        state.user_function(function)->Some_0.closure < state.scopes.len(),
    ensures
        ({
            let receiver = local_value(
                state.scopes,
                state.user_function(function)->Some_0.closure as int,
                THIS_KEYWORD@,
            );
            let entered = State { current: saved, ..state };
            &&& state.unwind(Frame::Call { function, saved }, value) == entered.deliver(receiver)
            &&& state.resume(Frame::Call { function, saved }, value) == entered.deliver(receiver)
            &&& state.resume(Frame::Construct { instance }, value) == state.deliver(
                Value::Instance(instance),
            )
        }),
{
}

/// What the caller answers to a request is the value that the machine goes
/// on with: the machine hands the operands of an arithmetic operator over
/// as they are and takes the result as it comes.
pub proof fn lemma_answer_is_delivered<'a>(state: State<'a>, request: Request<'a>, bits: u64)
    requires
        state.control == Control::Pending(request),
    ensures
        state.step(Event::Number(bits)) == state.deliver(Value::Number(bits)),
        state.step(Event::Resume) == state.ask(request),
{
}

} // verus!
