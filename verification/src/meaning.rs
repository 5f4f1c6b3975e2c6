//! What a program means: the value of an expression and the effect of a
//! statement, defined by the shape of the syntax tree.
//!
//! An expression is evaluated by evaluating its parts, a statement is
//! executed by executing its parts, a call runs the body of the function
//! in a scope of its own. The single operations on the way, looking a
//! variable up, applying an operator, reading a property, are those of
//! the [`crate::machine`]; what is defined here is the walk over the tree.
//! [`crate::agreement`] proves that the machine, stepped by a host, arrives
//! at exactly what this walk gives.
//!
//! A program may run forever. The walk takes a `fuel` that every call and
//! every turn of a loop uses up, and gives nothing where the fuel runs out.

use vstd::prelude::*;
use crate::constants::errors::{
    CAN_ONLY_CALL, ONLY_INSTANCES_HAVE_FIELDS, UNKNOWN_OPERATOR,
};
use crate::constants::INIT_METHOD;
use crate::callable::{Callable, LoxFunction, LoxInstanceView};
use crate::error::LoxErrorView;
use crate::grammar::{Expression, Statement, TokenType};
use crate::hosted::Host;
use crate::machine::{
    bound_parameters, type_error, ActionView, Control, Frame, Outcome, State,
};
use crate::render::PieceView;
use crate::value::Value;

verus! {

/// How a statement ends: it is done, or a `return` leaves the function.
pub enum Flow {
    Next,
    Break(Value),
}

/// What evaluating or executing has come to: the state it has left, the
/// lines it has printed, and its result or the error that stopped it.
pub struct Done<'a, T> {
    pub state: State<'a>,
    pub printed: Seq<PieceView>,
    pub result: Result<T, LoxErrorView>,
}

/// The state with nothing running: what the program has made, and no more.
pub open spec fn bare<'a>(state: State<'a>) -> State<'a> {
    State { control: Control::Idle, frames: Seq::empty(), operands: Seq::empty(), ..state }
}

/// What has been done, with more printed before it.
pub open spec fn after<'a, T>(printed: Seq<PieceView>, done: Option<Done<'a, T>>) -> Option<
    Done<'a, T>,
> {
    match done {
        Some(done) => Some(Done { printed: printed + done.printed, ..done }),
        None => None,
    }
}

/// An error of a part, as the error of the whole.
pub open spec fn stopped<'a, S, T>(part: Done<'a, S>) -> Done<'a, T> {
    Done { state: part.state, printed: part.printed, result: Err(part.result->Err_0) }
}

impl Host {
    /// What a single operation of the machine comes to: the value that it
    /// delivers, or that the host answers with, or the error it fails with.
    pub open spec fn operation<'a>(self, outcome: Outcome<'a>) -> Done<'a, Value> {
        match outcome.action {
            ActionView::Failed(error) => Done {
                state: outcome.state,
                printed: Seq::empty(),
                result: Err(error),
            },
            _ => Done {
                state: bare(outcome.state),
                printed: Seq::empty(),
                result: Ok(
                    match outcome.state.control {
                        Control::Deliver(value) => value,
                        Control::Pending(request) => Value::Number(self.answer(request)),
                        _ => Value::Nil,
                    },
                ),
            },
        }
    }

    /// The value of an expression.
    pub open spec fn evaluate<'a>(self, state: State<'a>, expr: &'a Expression, fuel: nat) -> Option<
        Done<'a, Value>,
    >
        decreases fuel, 0nat, expr, 2nat,
    {
        match expr {
            Expression::Literal(literal) => Some(self.operation(state.literal(literal))),
            Expression::Grouping(inner) => self.evaluate(state, &**inner, fuel),
            Expression::Variable { id, name } => Some(self.operation(state.variable(*id, name))),
            Expression::This { id, keyword } => Some(self.operation(state.variable(*id, keyword))),
            Expression::Super { id, keyword, method } => Some(
                self.operation(state.super_method(*id, method)),
            ),
            Expression::Unary { op, right } => self.operate(
                state,
                Frame::Unary { op },
                &**right,
                fuel,
            ),
            Expression::Assign { id, name, value } => self.operate(
                state,
                Frame::Assign { id: *id, name },
                &**value,
                fuel,
            ),
            Expression::Get { object, name } => self.operate(
                state,
                Frame::Get { name },
                &**object,
                fuel,
            ),
            Expression::Binary { .. } => self.evaluate_binary(state, expr, fuel),
            Expression::Logical { .. } => self.evaluate_logical(state, expr, fuel),
            Expression::SetProperty { .. } => self.evaluate_set(state, expr, fuel),
            Expression::Call { .. } => self.evaluate_call(state, expr, fuel),
        }
    }

    /// The value of a part, and what the operation of `frame` makes of it:
    /// the operator of a unary expression, the store of an assignment, the
    /// lookup of a property.
    pub open spec fn operate<'a>(
        self,
        state: State<'a>,
        frame: Frame<'a>,
        part: &'a Expression,
        fuel: nat,
    ) -> Option<Done<'a, Value>>
        decreases fuel, 0nat, part, 3nat,
    {
        match self.evaluate(state, part, fuel) {
            None => None,
            Some(value) => if value.result is Err {
                Some(value)
            } else {
                after(
                    value.printed,
                    Some(self.operation(value.state.resume(frame, value.result->Ok_0))),
                )
            },
        }
    }

    /// A binary operator: the left operand, the right operand, the operator.
    pub open spec fn evaluate_binary<'a>(self, state: State<'a>, expr: &'a Expression, fuel: nat) -> Option<
        Done<'a, Value>,
    >
        decreases fuel, 0nat, expr, 1nat,
    {
        match expr {
            Expression::Binary { left, op, right } => match self.evaluate(state, &**left, fuel) {
                None => None,
                Some(first) => if first.result is Err {
                    Some(first)
                } else {
                    match self.evaluate(first.state, &**right, fuel) {
                        None => None,
                        Some(second) => if second.result is Err {
                            after(first.printed, Some(second))
                        } else {
                            after(
                                first.printed + second.printed,
                                Some(
                                    self.operation(
                                        second.state.binary(
                                            op,
                                            first.result->Ok_0,
                                            second.result->Ok_0,
                                        ),
                                    ),
                                ),
                            )
                        },
                    }
                },
            },
            _ => None,
        }
    }

    /// `or` and `and`: the left operand, and the right one only where the
    /// left does not decide. The value is that of the operand evaluated last.
    pub open spec fn evaluate_logical<'a>(self, state: State<'a>, expr: &'a Expression, fuel: nat) -> Option<
        Done<'a, Value>,
    >
        decreases fuel, 0nat, expr, 1nat,
    {
        match expr {
            Expression::Logical { left, op, right } => match self.evaluate(state, &**left, fuel) {
                None => None,
                Some(first) => if first.result is Err {
                    Some(first)
                } else {
                    let value = first.result->Ok_0;
                    if op.token_type == TokenType::OR || op.token_type == TokenType::AND {
                        if value.truthy() == (op.token_type == TokenType::OR) {
                            Some(first)
                        } else {
                            after(first.printed, self.evaluate(first.state, &**right, fuel))
                        }
                    } else {
                        after(
                            first.printed,
                            Some(self.operation(first.state.fail(type_error(UNKNOWN_OPERATOR@)))),
                        )
                    }
                },
            },
            _ => None,
        }
    }

    /// A property write: the object, which must be an instance, then the
    /// value, then the write.
    pub open spec fn evaluate_set<'a>(self, state: State<'a>, expr: &'a Expression, fuel: nat) -> Option<
        Done<'a, Value>,
    >
        decreases fuel, 0nat, expr, 1nat,
    {
        match expr {
            Expression::SetProperty { object, name, value } => match self.evaluate(
                state,
                &**object,
                fuel,
            ) {
                None => None,
                Some(target) => if target.result is Err {
                    Some(target)
                } else {
                    match target.result->Ok_0 {
                        Value::Instance(instance) => if instance < target.state.instances.len() {
                            match self.evaluate(target.state, &**value, fuel) {
                                None => None,
                                Some(written) => if written.result is Err {
                                    after(target.printed, Some(written))
                                } else {
                                    after(
                                        target.printed + written.printed,
                                        Some(
                                            self.operation(
                                                written.state.resume(
                                                    Frame::SetValue { instance, name },
                                                    written.result->Ok_0,
                                                ),
                                            ),
                                        ),
                                    )
                                },
                            }
                        } else {
                            after(
                                target.printed,
                                Some(
                                    self.operation(
                                        target.state.fail(type_error(ONLY_INSTANCES_HAVE_FIELDS@)),
                                    ),
                                ),
                            )
                        },
                        _ => after(
                            target.printed,
                            Some(
                                self.operation(
                                    target.state.fail(type_error(ONLY_INSTANCES_HAVE_FIELDS@)),
                                ),
                            ),
                        ),
                    }
                },
            },
            _ => None,
        }
    }

    /// A call: the callee, the arguments from left to right, the call.
    pub open spec fn evaluate_call<'a>(self, state: State<'a>, expr: &'a Expression, fuel: nat) -> Option<
        Done<'a, Value>,
    >
        decreases fuel, 0nat, expr, 1nat,
    {
        match expr {
            Expression::Call { callee, paren_line, arguments } => match self.evaluate(
                state,
                &**callee,
                fuel,
            ) {
                None => None,
                Some(called) => if called.result is Err {
                    Some(called)
                } else {
                    after(
                        called.printed,
                        self.call_with(
                            called.state,
                            called.result->Ok_0,
                            arguments,
                            0,
                            Seq::empty(),
                            fuel,
                        ),
                    )
                },
            },
            _ => None,
        }
    }

    /// The call of `callee` with the values `found` of the arguments before
    /// `from` and the values of the arguments from `from` on.
    pub open spec fn call_with<'a>(
        self,
        state: State<'a>,
        callee: Value,
        arguments: &'a Vec<Expression>,
        from: nat,
        found: Seq<Value>,
        fuel: nat,
    ) -> Option<Done<'a, Value>>
        decreases fuel, 0nat, arguments, arguments@.len() + 1,
    {
        if from > arguments@.len() {
            None
        } else {
            match self.evaluate_all(state, arguments, from, found, fuel) {
                None => None,
                Some(given) => if given.result is Err {
                    Some(stopped(given))
                } else if fuel == 0 {
                    None
                } else {
                    after(
                        given.printed,
                        self.call(given.state, callee, given.result->Ok_0, (fuel - 1) as nat),
                    )
                },
            }
        }
    }

    /// The values of the arguments from `from` on, after the values `found`
    /// of those before, in order.
    pub open spec fn evaluate_all<'a>(
        self,
        state: State<'a>,
        arguments: &'a Vec<Expression>,
        from: nat,
        found: Seq<Value>,
        fuel: nat,
    ) -> Option<Done<'a, Seq<Value>>>
        decreases fuel, 0nat, arguments, arguments@.len() - from,
    {
        if from >= arguments@.len() {
            Some(Done { state, printed: Seq::empty(), result: Ok(found) })
        } else {
            match self.evaluate(state, &arguments[from as int], fuel) {
                None => None,
                Some(argument) => if argument.result is Err {
                    Some(stopped(argument))
                } else {
                    after(
                        argument.printed,
                        self.evaluate_all(
                            argument.state,
                            arguments,
                            from + 1,
                            found.push(argument.result->Ok_0),
                            fuel,
                        ),
                    )
                },
            }
        }
    }

    /// A call of a function of the program: its body runs in a new scope
    /// that holds the arguments and encloses the closure; afterwards the
    /// scope of the caller is current again. The result is what the body
    /// returns, `nil` if it returns nothing, and the receiver if the
    /// function is an initializer.
    pub open spec fn call_function<'a>(
        self,
        state: State<'a>,
        function: LoxFunction<'a>,
        handle: usize,
        arguments: Seq<Value>,
        fuel: nat,
    ) -> Option<Done<'a, Value>>
        decreases fuel, 0nat, function, 0nat,
    {
        let params = function.declaration.params@;
        if arguments.len() != params.len() {
            Some(
                self.operation(
                    state.fail(
                        LoxErrorView::ArgumentCountError {
                            expected: params.len() as usize,
                            got: arguments.len() as usize,
                        },
                    ),
                ),
            )
        } else if fuel == 0 {
            None
        } else {
            let entered = State {
                current: state.scopes.len() as usize,
                ..state.enclose(function.closure, bound_parameters(params, arguments, params.len()))
            };
            match self.execute_all(entered, &function.declaration.body, 0, (fuel - 1) as nat) {
                None => None,
                Some(body) => if body.result is Err {
                    Some(stopped(body))
                } else {
                    let left = State { current: state.current, ..body.state };
                    Some(
                        Done {
                            state: left,
                            printed: body.printed,
                            result: Ok(
                                left.call_result(
                                    handle,
                                    match body.result->Ok_0 {
                                        Flow::Break(value) => value,
                                        Flow::Next => Value::Nil,
                                    },
                                ),
                            ),
                        },
                    )
                },
            }
        }
    }

    /// A call: of a function of the program, of the built-in clock, or of a
    /// class, which makes an instance and runs `init` on it if there is one.
    pub open spec fn call<'a>(self, state: State<'a>, callee: Value, arguments: Seq<Value>, fuel: nat) -> Option<
        Done<'a, Value>,
    >
        decreases fuel, 0nat, callee, 0nat,
    {
        match callee {
            Value::Function(handle) => if handle < state.functions.len() {
                match state.functions[handle as int] {
                    Callable::Function(function) => if fuel == 0 {
                        None
                    } else {
                        self.call_function(state, function, handle, arguments, (fuel - 1) as nat)
                    },
                    Callable::Native(native) => Some(
                        self.operation(state.invoke(callee, arguments)),
                    ),
                }
            } else {
                Some(self.operation(state.fail(type_error(CAN_ONLY_CALL@))))
            },
            Value::Class(class) => if class < state.classes.len() {
                let instance = state.instances.len() as usize;
                let made = State {
                    instances: state.instances.push(
                        LoxInstanceView { class, fields: Map::<Seq<char>, Value>::empty() },
                    ),
                    ..state
                };
                match state.find_method(class, INIT_METHOD@) {
                    Some(initializer) => if arguments.len()
                        != initializer.declaration.params@.len() {
                        Some(self.operation(state.instantiate(class, arguments)))
                    } else if fuel == 0 {
                        None
                    } else {
                        match self.call_function(
                            made.bind(initializer, instance),
                            made.bound_method(initializer),
                            made.functions.len() as usize,
                            arguments,
                            (fuel - 1) as nat,
                        ) {
                            None => None,
                            Some(initialized) => if initialized.result is Err {
                                Some(initialized)
                            } else {
                                Some(
                                    Done {
                                        result: Ok(Value::Instance(instance)),
                                        ..initialized
                                    },
                                )
                            },
                        }
                    },
                    None => Some(self.operation(state.instantiate(class, arguments))),
                }
            } else {
                Some(self.operation(state.fail(type_error(CAN_ONLY_CALL@))))
            },
            _ => Some(self.operation(state.fail(type_error(CAN_ONLY_CALL@)))),
        }
    }

    /// What a statement comes to when an operation is all there is to it.
    pub open spec fn completed<'a>(self, outcome: Outcome<'a>) -> Done<'a, Flow> {
        let done = self.operation(outcome);
        Done {
            state: done.state,
            printed: match outcome.action {
                ActionView::Print(piece) => seq![piece],
                _ => Seq::empty(),
            },
            result: match done.result {
                Ok(_) => Ok(Flow::Next),
                Err(error) => Err(error),
            },
        }
    }

    /// A value, as the end of a statement that goes on to the next.
    pub open spec fn discarded<'a>(self, value: Done<'a, Value>) -> Done<'a, Flow> {
        Done {
            state: value.state,
            printed: value.printed,
            result: match value.result {
                Ok(_) => Ok(Flow::Next),
                Err(error) => Err(error),
            },
        }
    }

    /// The effect of a class declaration: the superclass, if any, is
    /// evaluated, and the class is made and bound to its name.
    pub open spec fn execute_class<'a>(self, state: State<'a>, statement: &'a Statement, fuel: nat) -> Option<
        Done<'a, Flow>,
    >
        decreases fuel, 1nat, statement, 0nat,
    {
        match statement {
            Statement::Class { name, superclass, methods } => match superclass {
                Some(expr) => match self.evaluate(state, expr, fuel) {
                    None => None,
                    Some(parent) => if parent.result is Err {
                        Some(stopped(parent))
                    } else {
                        after(
                            parent.printed,
                            Some(
                                self.completed(
                                    parent.state.resume(
                                        Frame::Superclass { name, methods },
                                        parent.result->Ok_0,
                                    ),
                                ),
                            ),
                        )
                    },
                },
                None => Some(self.completed(state.execute(statement))),
            },
            _ => None,
        }
    }

    /// The effect of an `if`: the branch that the condition chooses.
    pub open spec fn execute_if<'a>(self, state: State<'a>, statement: &'a Statement, fuel: nat) -> Option<
        Done<'a, Flow>,
    >
        decreases fuel, 1nat, statement, 0nat,
    {
        match statement {
            Statement::If { condition, then_branch, else_branch } => match self.evaluate(
                state,
                condition,
                fuel,
            ) {
                None => None,
                Some(tested) => if tested.result is Err {
                    Some(stopped(tested))
                } else if tested.result->Ok_0.truthy() {
                    after(tested.printed, self.execute(tested.state, &**then_branch, fuel))
                } else {
                    match else_branch {
                        Some(otherwise) => after(
                            tested.printed,
                            self.execute(tested.state, &**otherwise, fuel),
                        ),
                        None => Some(self.discarded(tested)),
                    }
                },
            },
            _ => None,
        }
    }

    /// The effect of a `while`: as long as the condition holds, the body,
    /// and the loop again.
    pub open spec fn execute_while<'a>(self, state: State<'a>, statement: &'a Statement, fuel: nat) -> Option<
        Done<'a, Flow>,
    >
        decreases fuel, 1nat, statement, 0nat,
    {
        match statement {
            Statement::While { condition, body } => match self.evaluate(state, condition, fuel) {
                None => None,
                Some(tested) => if tested.result is Err {
                    Some(stopped(tested))
                } else if !tested.result->Ok_0.truthy() {
                    Some(self.discarded(tested))
                } else {
                    match self.execute(tested.state, &**body, fuel) {
                        None => None,
                        Some(turn) => if turn.result is Err || turn.result->Ok_0 is Break {
                            after(tested.printed, Some(turn))
                        } else if fuel == 0 {
                            None
                        } else {
                            after(
                                tested.printed + turn.printed,
                                self.execute_while(turn.state, statement, (fuel - 1) as nat),
                            )
                        },
                    }
                },
            },
            _ => None,
        }
    }

    /// The effect of an expression statement: the expression is evaluated
    /// and its value dropped.
    pub open spec fn execute_expression<'a>(self, state: State<'a>, statement: &'a Statement, fuel: nat) -> Option<
        Done<'a, Flow>,
    >
        decreases fuel, 1nat, statement, 0nat,
    {
        match statement {
            Statement::Expression(expr) => match self.evaluate(state, expr, fuel) {
                None => None,
                Some(value) => if value.result is Err {
                    Some(stopped(value))
                } else {
                    after(
                        value.printed,
                        Some(
                            self.completed(value.state.resume(Frame::Discard, value.result->Ok_0)),
                        ),
                    )
                },
            },
            _ => None,
        }
    }

    /// The effect of a `print`: the printable form of the value is printed.
    pub open spec fn execute_print<'a>(self, state: State<'a>, statement: &'a Statement, fuel: nat) -> Option<
        Done<'a, Flow>,
    >
        decreases fuel, 1nat, statement, 0nat,
    {
        match statement {
            Statement::Print(expr) => match self.evaluate(state, expr, fuel) {
                None => None,
                Some(value) => if value.result is Err {
                    Some(stopped(value))
                } else {
                    after(
                        value.printed,
                        Some(self.completed(value.state.resume(Frame::Print, value.result->Ok_0))),
                    )
                },
            },
            _ => None,
        }
    }

    /// The effect of a `return`: the function is left with the value, or
    /// with `nil`.
    pub open spec fn execute_return<'a>(self, state: State<'a>, statement: &'a Statement, fuel: nat) -> Option<
        Done<'a, Flow>,
    >
        decreases fuel, 1nat, statement, 0nat,
    {
        match statement {
            Statement::Return { keyword, value } => match value {
                Some(expr) => match self.evaluate(state, expr, fuel) {
                    None => None,
                    Some(value) => if value.result is Err {
                        Some(stopped(value))
                    } else {
                        Some(
                            Done {
                                state: value.state,
                                printed: value.printed,
                                result: Ok(Flow::Break(value.result->Ok_0)),
                            },
                        )
                    },
                },
                None => Some(
                    Done { state, printed: Seq::empty(), result: Ok(Flow::Break(Value::Nil)) },
                ),
            },
            _ => None,
        }
    }

    /// The effect of a variable declaration: the name is set, to the value
    /// of the initializer or to `nil`, in the scope that is current.
    pub open spec fn execute_variable<'a>(self, state: State<'a>, statement: &'a Statement, fuel: nat) -> Option<
        Done<'a, Flow>,
    >
        decreases fuel, 1nat, statement, 0nat,
    {
        match statement {
            Statement::Variable { name, init } => match init {
                Some(expr) => match self.evaluate(state, expr, fuel) {
                    None => None,
                    Some(value) => if value.result is Err {
                        Some(stopped(value))
                    } else {
                        after(
                            value.printed,
                            Some(
                                self.completed(
                                    value.state.resume(Frame::Define { name }, value.result->Ok_0),
                                ),
                            ),
                        )
                    },
                },
                None => Some(self.completed(state.execute(statement))),
            },
            _ => None,
        }
    }

    /// The effect of a block: its statements in a new scope, and the scope
    /// from before current again afterwards.
    pub open spec fn execute_block<'a>(self, state: State<'a>, statement: &'a Statement, fuel: nat) -> Option<
        Done<'a, Flow>,
    >
        decreases fuel, 1nat, statement, 0nat,
    {
        match statement {
            Statement::Block(statements) => {
                let entered = State {
                    current: state.scopes.len() as usize,
                    ..state.enclose(state.current, Map::<Seq<char>, Value>::empty())
                };
                match self.execute_all(entered, statements, 0, fuel) {
                    None => None,
                    Some(body) => if body.result is Err {
                        Some(body)
                    } else {
                        Some(Done { state: State { current: state.current, ..body.state }, ..body })
                    },
                }
            },
            _ => None,
        }
    }

    /// The effect of a statement.
    pub open spec fn execute<'a>(self, state: State<'a>, statement: &'a Statement, fuel: nat) -> Option<
        Done<'a, Flow>,
    >
        decreases fuel, 1nat, statement, 1nat,
    {
        match statement {
            Statement::Block(_) => self.execute_block(state, statement, fuel),
            Statement::Class { .. } => self.execute_class(state, statement, fuel),
            Statement::Expression(_) => self.execute_expression(state, statement, fuel),
            Statement::Function(_) => Some(self.completed(state.execute(statement))),
            Statement::If { .. } => self.execute_if(state, statement, fuel),
            Statement::Print(_) => self.execute_print(state, statement, fuel),
            Statement::Return { .. } => self.execute_return(state, statement, fuel),
            Statement::Variable { .. } => self.execute_variable(state, statement, fuel),
            Statement::While { .. } => self.execute_while(state, statement, fuel),
        }
    }

    /// The effect of the statements from `from` on, in order, up to the
    /// first that a `return` leaves.
    pub open spec fn execute_all<'a>(
        self,
        state: State<'a>,
        statements: &'a Vec<Statement>,
        from: nat,
        fuel: nat,
    ) -> Option<Done<'a, Flow>>
        decreases fuel, 1nat, statements, statements@.len() - from,
    {
        if from >= statements@.len() {
            Some(Done { state, printed: Seq::empty(), result: Ok(Flow::Next) })
        } else {
            match self.execute(state, &statements[from as int], fuel) {
                None => None,
                Some(first) => if first.result is Err || first.result->Ok_0 is Break {
                    Some(first)
                } else {
                    after(
                        first.printed,
                        self.execute_all(first.state, statements, from + 1, fuel),
                    )
                },
            }
        }
    }

    /// The effect of a program: its statements in order, from the global
    /// scope.
    pub open spec fn program<'a>(self, state: State<'a>, statements: &'a Vec<Statement>, fuel: nat) -> Option<
        Done<'a, Flow>,
    > {
        self.execute_all(bare(state.load(statements)), statements, 0, fuel)
    }
}

/// Operands are evaluated from left to right: the right operand of a
/// binary operator is evaluated in the state that the left one has left,
/// what the left one prints is printed first, and if the left one fails,
/// the right one is not evaluated at all.
pub proof fn lemma_left_operand_first<'a>(host: Host, state: State<'a>, expr: &'a Expression, fuel: nat)
    requires
        *expr is Binary,
        host.evaluate(state, expr, fuel) is Some,
    ensures
        ({
            let whole = host.evaluate(state, expr, fuel)->Some_0;
            let first = host.evaluate(state, &*expr->Binary_left, fuel);
            &&& first is Some
            &&& first->Some_0.result is Err ==> whole == first->Some_0
            &&& first->Some_0.result is Ok ==> {
                let second = host.evaluate(first->Some_0.state, &*expr->Binary_right, fuel);
                &&& second is Some
                &&& first->Some_0.printed + second->Some_0.printed == whole.printed
                &&& second->Some_0.result is Err ==> whole.result == second->Some_0.result
            }
        }),
{
    match expr {
        Expression::Binary { left, op, right } => {
            let whole = host.evaluate_binary(state, expr, fuel)->Some_0;
            let first = host.evaluate(state, &**left, fuel)->Some_0;
            if first.result is Ok {
                let second = host.evaluate(first.state, &**right, fuel)->Some_0;
                if second.result is Ok {
                    let applied = host.operation(
                        second.state.binary(op, first.result->Ok_0, second.result->Ok_0),
                    );
                    assert(applied.printed =~= Seq::<PieceView>::empty());
                    assert(first.printed + second.printed + applied.printed =~= first.printed
                        + second.printed);
                }
            }
        },
        _ => {},
    }
}

/// Arity: a call of a function of the program with a number of arguments
/// other than the number of its parameters is an error, whatever the
/// arguments are; nothing is printed and nothing is made.
pub proof fn lemma_wrong_arity_is_an_error<'a>(
    host: Host,
    state: State<'a>,
    handle: usize,
    arguments: Seq<Value>,
    fuel: nat,
)
    requires
        state.user_function(handle) is Some,
        arguments.len() != state.user_function(handle)->Some_0.declaration.params@.len(),
        fuel > 0,
    ensures
        ({
            let done = host.call(state, Value::Function(handle), arguments, fuel);
            &&& done is Some
            &&& done->Some_0.result == Err::<Value, LoxErrorView>(
                LoxErrorView::ArgumentCountError {
                    expected: state.user_function(
                        handle,
                    )->Some_0.declaration.params@.len() as usize,
                    got: arguments.len() as usize,
                },
            )
            &&& done->Some_0.printed == Seq::<PieceView>::empty()
            &&& done->Some_0.state.scopes == state.scopes
            &&& done->Some_0.state.strings == state.strings
            &&& done->Some_0.state.functions == state.functions
            &&& done->Some_0.state.classes == state.classes
            &&& done->Some_0.state.instances == state.instances
        }),
{
}

/// Initializer return: a call of a class yields the new instance,
/// whatever `init` does and however it is left, by the end of its body
/// or by a `return;` anywhere in it.
pub proof fn lemma_class_call_yields_the_instance<'a>(
    host: Host,
    state: State<'a>,
    class: usize,
    arguments: Seq<Value>,
    fuel: nat,
)
    requires
        class < state.classes.len(),
        host.call(state, Value::Class(class), arguments, fuel) is Some,
        host.call(state, Value::Class(class), arguments, fuel)->Some_0.result is Ok,
    ensures
        host.call(state, Value::Class(class), arguments, fuel)->Some_0.result == Ok::<
            Value,
            LoxErrorView,
        >(Value::Instance(state.instances.len() as usize)),
{
}

/// The statement declares the variable `name` with an initializer.
pub open spec fn declares(statement: &Statement, name: Seq<char>) -> bool {
    match statement {
        Statement::Variable { name: declared, init } => declared.lexeme@ == name && init is Some,
        _ => false,
    }
}

/// The initializer of a variable declaration that has one.
pub open spec fn initializer<'a>(statement: &'a Statement) -> &'a Expression {
    match statement {
        Statement::Variable { name, init: Some(expr) } => expr,
        _ => arbitrary(),
    }
}

/// The statement prints the variable `name`, read by the expression `id`.
pub open spec fn prints(statement: &Statement, id: usize, name: Seq<char>) -> bool {
    match statement {
        Statement::Print(Expression::Variable { id: read, name: printed }) => *read == id
            && printed.lexeme@ == name,
        _ => false,
    }
}

/// The statements of a block.
pub open spec fn block_of<'a>(statement: &'a Statement) -> &'a Vec<Statement> {
    match statement {
        Statement::Block(statements) => statements,
        _ => arbitrary(),
    }
}

/// The program `var x = A; { var x = B; print x; } print x;`, in which the
/// expression `inner` reads the `x` of the block and `outer` the global.
pub open spec fn shadows(program: &Vec<Statement>, name: Seq<char>, inner: usize, outer: usize) -> bool {
    &&& program@.len() == 3
    &&& declares(&program[0], name)
    &&& program[1] is Block
    &&& block_of(&program[1])@.len() == 2
    &&& declares(&block_of(&program[1])[0], name)
    &&& prints(&block_of(&program[1])[1], inner, name)
    &&& prints(&program[2], outer, name)
}

/// Shadowing: in `var x = A; { var x = B; print x; } print x;` the block
/// prints `B` and the program after it prints `A`, whatever `A` and `B`
/// are.
///
/// The resolver has bound the `x` of the block to the innermost scope and
/// left the other to the globals. The initializers are any expressions
/// that have the values `a` and `b` and no effect.
pub proof fn lemma_block_shadows_global<'a>(
    host: Host,
    state: State<'a>,
    program: &'a Vec<Statement>,
    name: Seq<char>,
    inner: usize,
    outer: usize,
    a: Value,
    b: Value,
    fuel: nat,
)
    requires
        shadows(program, name, inner, outer),
        0 < state.scopes.len() < usize::MAX,
        state.locals.contains_key(inner) && state.locals[inner] == 0,
        !state.locals.contains_key(outer),
        ({
            let start = bare(state.load(program));
            let declared = bare(start.define(0, name, a));
            let entered = State {
                current: declared.scopes.len() as usize,
                ..declared.enclose(0, Map::<Seq<char>, Value>::empty())
            };
            &&& host.evaluate(start, initializer(&program[0]), fuel) == Some(
                Done { state: start, printed: Seq::<PieceView>::empty(), result: Ok(a) },
            )
            &&& host.evaluate(entered, initializer(&block_of(&program[1])[0]), fuel) == Some(
                Done { state: entered, printed: Seq::<PieceView>::empty(), result: Ok(b) },
            )
        }),
    ensures
        ({
            let done = host.program(state, program, fuel);
            &&& done is Some
            &&& done->Some_0.result == Ok::<Flow, LoxErrorView>(Flow::Next)
            &&& done->Some_0.printed == seq![
                done->Some_0.state.printable(b),
                done->Some_0.state.printable(a),
            ]
        }),
{
    reveal_with_fuel(Host::execute_all, 4);
    let body = block_of(&program[1]);
    let start = bare(state.load(program));
    let empty = Seq::<PieceView>::empty();
    // var x = A;
    let first = host.execute(start, &program[0], fuel)->Some_0;
    let declared = bare(start.define(0, name, a));
    assert(host.execute_variable(start, &program[0], fuel) == Some(
        Done { state: declared, printed: empty + empty, result: Ok(Flow::Next) },
    ));
    assert(empty + empty =~= empty);
    assert(first == (Done { state: declared, printed: empty, result: Ok(Flow::Next) }));
    // { var x = B;
    let entered = State {
        current: declared.scopes.len() as usize,
        ..declared.enclose(0, Map::<Seq<char>, Value>::empty())
    };
    let block = entered.current as int;
    let shadowed = bare(entered.define(block, name, b));
    assert(host.execute_variable(entered, &body[0], fuel) == Some(
        Done { state: shadowed, printed: empty + empty, result: Ok(Flow::Next) },
    ));
    assert(host.execute(entered, &body[0], fuel) == Some(
        Done { state: shadowed, printed: empty, result: Ok(Flow::Next) },
    ));
    // print x; }
    assert(crate::environment::ancestor_of(shadowed.scopes, block, 0) == Some(block));
    assert(shadowed.scopes[block].values.contains_key(name));
    assert(crate::environment::local_value(shadowed.scopes, block, name) == b);
    let read = match &body[1] {
        Statement::Print(expr) => expr,
        _ => arbitrary(),
    };
    assert(host.evaluate(shadowed, read, fuel) == Some(
        Done { state: shadowed, printed: empty, result: Ok(b) },
    ));
    let inside = seq![shadowed.printable(b)];
    assert(empty + seq![shadowed.printable(b)] =~= inside);
    assert(host.execute_print(shadowed, &body[1], fuel) == Some(
        Done { state: shadowed, printed: inside, result: Ok(Flow::Next) },
    ));
    assert(host.execute(shadowed, &body[1], fuel) == Some(
        Done { state: shadowed, printed: inside, result: Ok(Flow::Next) },
    ));
    assert(host.execute_all(shadowed, body, 2, fuel) == Some(
        Done { state: shadowed, printed: empty, result: Ok(Flow::Next) },
    ));
    assert(inside + empty =~= inside);
    assert(host.execute_all(shadowed, body, 1, fuel) == Some(
        Done { state: shadowed, printed: inside, result: Ok(Flow::Next) },
    ));
    assert(empty + inside =~= inside);
    assert(host.execute_all(entered, body, 0, fuel) == Some(
        Done { state: shadowed, printed: inside, result: Ok(Flow::Next) },
    ));
    let left = State { current: 0, ..shadowed };
    assert(host.execute_block(declared, &program[1], fuel) == Some(
        Done { state: left, printed: inside, result: Ok(Flow::Next) },
    ));
    assert(host.execute(declared, &program[1], fuel) == Some(
        Done { state: left, printed: inside, result: Ok(Flow::Next) },
    ));
    // print x;
    assert(left.scopes[0].values.contains_key(name));
    assert(left.scopes[0].values[name] == a);
    assert(crate::environment::holder_of(left.scopes, 0, name) == Some(0int));
    let last = match &program[2] {
        Statement::Print(expr) => expr,
        _ => arbitrary(),
    };
    assert(host.evaluate(left, last, fuel) == Some(
        Done { state: left, printed: empty, result: Ok(a) },
    ));
    let outside = seq![left.printable(a)];
    assert(empty + seq![left.printable(a)] =~= outside);
    assert(host.execute_print(left, &program[2], fuel) == Some(
        Done { state: left, printed: outside, result: Ok(Flow::Next) },
    ));
    assert(host.execute(left, &program[2], fuel) == Some(
        Done { state: left, printed: outside, result: Ok(Flow::Next) },
    ));
    assert(host.execute_all(left, program, 3, fuel) == Some(
        Done { state: left, printed: empty, result: Ok(Flow::Next) },
    ));
    assert(outside + empty =~= outside);
    assert(host.execute_all(left, program, 2, fuel) == Some(
        Done { state: left, printed: outside, result: Ok(Flow::Next) },
    ));
    assert(inside + outside =~= seq![left.printable(b), left.printable(a)]);
    assert(host.execute_all(declared, program, 1, fuel) == Some(
        Done {
            state: left,
            printed: seq![left.printable(b), left.printable(a)],
            result: Ok(Flow::Next),
        },
    ));
    assert(empty + seq![left.printable(b), left.printable(a)] =~= seq![
        left.printable(b),
        left.printable(a),
    ]);
}

} // verus!
