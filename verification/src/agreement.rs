//! The machine arrives at what the program means.
//!
//! For every expression and statement, and whatever surrounds it, the
//! machine stepped by a host takes a number of steps, prints on the way
//! what [`crate::meaning`] says is printed, and then delivers the value,
//! passes the `return` on, or fails with the error, in the state that the
//! meaning gives and with everything that was waiting still waiting.

use vstd::prelude::*;
use crate::callable::{Callable, LoxFunction, LoxInstanceView};
use crate::constants::errors::CAN_ONLY_CALL;
use crate::constants::INIT_METHOD;
use crate::grammar::{Expression, Statement, TokenType};
use crate::hosted::{lemma_effects_in_two_parts, lemma_run_in_two_parts, Host};
use crate::machine::{bound_parameters, ActionView, Control, Frame, Outcome, State};
use crate::meaning::{bare, Done, Flow};
use crate::render::PieceView;
use crate::value::Value;

verus! {

/// The state `made`, with `control` to work on and with the frames and
/// operands of the machine `before`.
pub open spec fn resumed<'a>(before: State<'a>, made: State<'a>, control: Control<'a>) -> State<'a> {
    State { control, frames: before.frames, operands: before.operands, ..made }
}

/// In `steps` steps from `start` the machine comes to what `done` says: it
/// prints the same, and it delivers the value with the frames and operands
/// of `under` in place, or it has failed with the error.
pub open spec fn lands<'a>(
    host: Host,
    start: State<'a>,
    under: State<'a>,
    steps: nat,
    done: Done<'a, Value>,
) -> bool {
    &&& host.printed(start, steps) == done.printed
    &&& done.state == bare(done.state)
    &&& match done.result {
        Ok(value) => host.run(start, steps) == resumed(under, done.state, Control::Deliver(value))
            && host.ended(start, steps) is None,
        Err(error) => host.run(start, steps) == done.state && host.ended(start, steps) == Some(
            ActionView::Failed(error),
        ),
    }
}

/// In `steps` steps from `before` the machine comes to what `done` says,
/// with all that was waiting in `before` still in place.
pub open spec fn arrives<'a>(host: Host, before: State<'a>, steps: nat, done: Done<'a, Value>) -> bool {
    lands(host, before, before, steps, done)
}

/// As [`arrives`], for a statement: it delivers `nil` when it is done, and
/// passes a `return` on.
pub open spec fn completes<'a>(host: Host, before: State<'a>, steps: nat, done: Done<'a, Flow>) -> bool {
    &&& host.printed(before, steps) == done.printed
    &&& done.state == bare(done.state)
    &&& match done.result {
        Ok(flow) => host.run(before, steps) == resumed(
            before,
            done.state,
            match flow {
                Flow::Next => Control::Deliver(Value::Nil),
                Flow::Break(value) => Control::Return(value),
            },
        ) && host.ended(before, steps) is None,
        Err(error) => host.run(before, steps) == done.state && host.ended(before, steps) == Some(
            ActionView::Failed(error),
        ),
    }
}

/// One step, as a run.
pub proof fn lemma_one_step<'a>(host: Host, state: State<'a>)
    ensures
        host.run(state, 1) == state.step(host.event(state)).state,
        host.printed(state, 1) == match state.step(host.event(state)).action {
            ActionView::Print(piece) => seq![piece],
            _ => Seq::<PieceView>::empty(),
        },
        host.ended(state, 1) == match state.step(host.event(state)).action {
            ActionView::Finished(_) => Some(state.step(host.event(state)).action),
            ActionView::Failed(_) => Some(state.step(host.event(state)).action),
            _ => None,
        },
{
    let next = state.step(host.event(state));
    assert(host.run(next.state, 0) == next.state);
    assert(host.printed(next.state, 0) == Seq::<PieceView>::empty());
    assert(host.ended(next.state, 0) is None);
    assert(host.printed(state, 1) =~= match next.action {
        ActionView::Print(piece) => seq![piece],
        _ => Seq::<PieceView>::empty(),
    });
}

/// A run that goes on after its first part: the two parts as one.
pub proof fn lemma_goes_on<'a>(host: Host, state: State<'a>, first: nat, second: nat)
    requires
        host.ended(state, first) is None,
    ensures
        host.run(state, first + second) == host.run(host.run(state, first), second),
        host.printed(state, first + second) == host.printed(state, first) + host.printed(
            host.run(state, first),
            second,
        ),
        host.ended(state, first + second) == host.ended(host.run(state, first), second),
{
    lemma_run_in_two_parts(host, state, first, second);
    lemma_effects_in_two_parts(host, state, first, second);
}

/// What a single operation comes to in the machine: applied to a state
/// with frames and operands, it does what it does to the bare state, and
/// where it asks the host, the answer is delivered one step later.
///
/// `applied` is the outcome of the operation on the machine's state and
/// `plain` its outcome on the bare state; `before` holds the frames and
/// operands that are to be in place afterwards.
pub open spec fn operates<'a>(
    before: State<'a>,
    applied: Outcome<'a>,
    plain: Outcome<'a>,
) -> bool {
    &&& applied.action == plain.action
    &&& match plain.action {
        ActionView::Failed(_) => applied.state == plain.state,
        _ => applied.state == resumed(before, plain.state, plain.state.control) && (
        plain.state.control is Deliver || plain.state.control is Pending),
    }
}

/// The machine is in the state `reached` after `steps` steps from `start`,
/// without an end and having printed `printed`, and its next step is the
/// operation with the outcome `applied`. Then it lands at what the
/// operation comes to.
pub proof fn lemma_operation<'a>(
    host: Host,
    start: State<'a>,
    under: State<'a>,
    steps: nat,
    printed: Seq<PieceView>,
    reached: State<'a>,
    applied: Outcome<'a>,
    plain: Outcome<'a>,
) -> (total: nat)
    requires
        host.run(start, steps) == reached,
        host.printed(start, steps) == printed,
        host.ended(start, steps) is None,
        reached.step(host.event(reached)) == applied,
        operates(under, applied, plain),
        !(plain.action is Print) && !(plain.action is Finished),
    ensures
        lands(
            host,
            start,
            under,
            total,
            Done { printed: printed + host.operation(plain).printed, ..host.operation(plain) },
        ),
        total >= steps + 1,
{
    lemma_one_step(host, reached);
    lemma_goes_on(host, start, steps, 1);
    assert(printed + Seq::<PieceView>::empty() =~= printed);
    match plain.action {
        ActionView::Failed(error) => {
            (steps + 1) as nat
        },
        _ => {
            match plain.state.control {
                Control::Pending(request) => {
                    let asked = applied.state;
                    lemma_one_step(host, asked);
                    lemma_goes_on(host, start, steps + 1, 1);
                    (steps + 2) as nat
                },
                _ => {
                    (steps + 1) as nat
                },
            }
        },
    }
}

/// The machine puts `frame` on the stack and evaluates `part`; when the
/// value is there, the frame takes it in one operation. Then the machine
/// arrives at the value of the part, operated on, or at the error of the
/// part.
proof fn lemma_framed<'a>(
    host: Host,
    before: State<'a>,
    frame: Frame<'a>,
    part: &'a Expression,
    fuel: nat,
) -> (total: nat)
    requires
        before.step(host.event(before)) == before.push(frame).go(Control::Evaluate(part)),
        host.operate(bare(before), frame, part, fuel) is Some,
        frame is Unary || frame is Assign || frame is Get || frame is SetValue,
    ensures
        arrives(host, before, total, host.operate(bare(before), frame, part, fuel)->Some_0),
    decreases fuel, 0nat, part, 3nat,
{
    let entered = before.push(frame).go(Control::Evaluate(part)).state;
    assert(bare(entered) == bare(before));
    let steps = lemma_evaluate(host, entered, part, fuel);
    let value = host.evaluate(bare(before), part, fuel)->Some_0;
    if value.result is Err {
        (1 + steps) as nat
    } else {
        let reached = host.run(entered, steps);
        assert(reached.frames.drop_last() =~= before.frames);
        assert(reached.frames.last() == frame);
        let applied = reached.step(host.event(reached));
        let plain = value.state.resume(frame, value.result->Ok_0);
        assert(operates(before, applied, plain));
        lemma_operation(
            host,
            before,
            before,
            (1 + steps) as nat,
            value.printed,
            reached,
            applied,
            plain,
        )
    }
}

/// A step that is one operation and no more: the machine arrives at what
/// the operation comes to.
proof fn lemma_single<'a>(host: Host, before: State<'a>, plain: Outcome<'a>) -> (total: nat)
    requires
        operates(before, before.step(host.event(before)), plain),
        !(plain.action is Print) && !(plain.action is Finished),
    ensures
        arrives(host, before, total, host.operation(plain)),
{
    let empty = Seq::<PieceView>::empty();
    assert(host.run(before, 0) == before);
    assert(host.printed(before, 0) == empty);
    let total = lemma_operation(
        host,
        before,
        before,
        0,
        empty,
        before,
        before.step(host.event(before)),
        plain,
    );
    assert(empty + host.operation(plain).printed =~= host.operation(plain).printed);
    total
}

/// A literal: one operation.
proof fn lemma_literal<'a>(host: Host, before: State<'a>, expr: &'a Expression, fuel: nat) -> (total:
    nat)
    requires
        *expr is Literal,
        before.control == Control::Evaluate(expr),
    ensures
        arrives(host, before, total, host.evaluate(bare(before), expr, fuel)->Some_0),
{
    match expr {
        Expression::Literal(literal) => {
            let plain = bare(before).literal(literal);
            assert(operates(before, before.step(host.event(before)), plain));
            lemma_single(host, before, plain)
        },
        _ => 0,
    }
}

/// A variable or `this`: one operation, the lookup.
proof fn lemma_variable<'a>(host: Host, before: State<'a>, expr: &'a Expression, fuel: nat) -> (total:
    nat)
    requires
        *expr is Variable || *expr is This,
        before.control == Control::Evaluate(expr),
    ensures
        arrives(host, before, total, host.evaluate(bare(before), expr, fuel)->Some_0),
{
    match expr {
        Expression::Variable { id, name } => {
            let plain = bare(before).variable(*id, name);
            assert(operates(before, before.step(host.event(before)), plain));
            lemma_single(host, before, plain)
        },
        Expression::This { id, keyword } => {
            let plain = bare(before).variable(*id, keyword);
            assert(operates(before, before.step(host.event(before)), plain));
            lemma_single(host, before, plain)
        },
        _ => 0,
    }
}

/// `super.method`: one operation, the lookup and the binding.
proof fn lemma_super<'a>(host: Host, before: State<'a>, expr: &'a Expression, fuel: nat) -> (total:
    nat)
    requires
        *expr is Super,
        before.control == Control::Evaluate(expr),
    ensures
        arrives(host, before, total, host.evaluate(bare(before), expr, fuel)->Some_0),
{
    match expr {
        Expression::Super { id, keyword, method } => {
            let plain = bare(before).super_method(*id, method);
            assert(operates(before, before.step(host.event(before)), plain));
            lemma_single(host, before, plain)
        },
        _ => 0,
    }
}

/// The machine arrives at the value of an expression.
pub proof fn lemma_evaluate<'a>(host: Host, before: State<'a>, expr: &'a Expression, fuel: nat) -> (total:
    nat)
    requires
        before.control == Control::Evaluate(expr),
        host.evaluate(bare(before), expr, fuel) is Some,
    ensures
        arrives(host, before, total, host.evaluate(bare(before), expr, fuel)->Some_0),
    decreases fuel, 0nat, expr, 2nat,
{
    match expr {
        Expression::Literal(literal) => lemma_literal(host, before, expr, fuel),
        Expression::Variable { id, name } => lemma_variable(host, before, expr, fuel),
        Expression::This { id, keyword } => lemma_variable(host, before, expr, fuel),
        Expression::Super { id, keyword, method } => lemma_super(host, before, expr, fuel),
        Expression::Grouping(inner) => {
            let entered = before.step(host.event(before)).state;
            assert(bare(entered) == bare(before));
            let steps = lemma_evaluate(host, entered, &**inner, fuel);
            (1 + steps) as nat
        },
        Expression::Unary { op, right } => lemma_framed(
            host,
            before,
            Frame::Unary { op },
            &**right,
            fuel,
        ),
        Expression::Assign { id, name, value } => lemma_framed(
            host,
            before,
            Frame::Assign { id: *id, name },
            &**value,
            fuel,
        ),
        Expression::Get { object, name } => lemma_framed(
            host,
            before,
            Frame::Get { name },
            &**object,
            fuel,
        ),
        Expression::Binary { left, op, right } => lemma_binary(host, before, expr, fuel),
        Expression::Logical { left, op, right } => lemma_logical(host, before, expr, fuel),
        Expression::SetProperty { object, name, value } => lemma_set_property(
            host,
            before,
            expr,
            fuel,
        ),
        Expression::Call { callee, paren_line, arguments } => lemma_call_expression(
            host,
            before,
            expr,
            fuel,
        ),
    }
}

/// A binary operator: the left operand, the right operand, and the
/// operator as one operation.
proof fn lemma_binary<'a>(host: Host, before: State<'a>, expr: &'a Expression, fuel: nat) -> (total:
    nat)
    requires
        *expr is Binary,
        before.control == Control::Evaluate(expr),
        host.evaluate_binary(bare(before), expr, fuel) is Some,
    ensures
        arrives(host, before, total, host.evaluate_binary(bare(before), expr, fuel)->Some_0),
    decreases fuel, 0nat, expr, 1nat,
{
    match expr {
        Expression::Binary { left, op, right } => {
            let waiting = Frame::BinaryRight { op, right: &**right };
            let entered = before.step(host.event(before)).state;
            assert(entered == before.push(waiting).go(Control::Evaluate(&**left)).state);
            assert(bare(entered) == bare(before));
            let first_steps = lemma_evaluate(host, entered, &**left, fuel);
            let first = host.evaluate(bare(before), &**left, fuel)->Some_0;
            if first.result is Err {
                (1 + first_steps) as nat
            } else {
                let l = first.result->Ok_0;
                let reached = host.run(entered, first_steps);
                assert(reached.frames.drop_last() =~= before.frames);
                assert(reached.frames.last() == waiting);
                let holding = Frame::BinaryApply { op, left: l };
                let turned = reached.step(host.event(reached)).state;
                assert(turned == resumed(before, first.state, Control::Evaluate(&**right)).push(
                    holding,
                ));
                assert(bare(turned) == first.state);
                lemma_one_step(host, reached);
                lemma_goes_on(host, entered, first_steps, 1);
                let second_steps = lemma_evaluate(host, turned, &**right, fuel);
                let second = host.evaluate(first.state, &**right, fuel)->Some_0;
                lemma_goes_on(host, entered, first_steps + 1, second_steps);
                assert(first.printed + Seq::<PieceView>::empty() =~= first.printed);
                if second.result is Err {
                    (1 + first_steps + 1 + second_steps) as nat
                } else {
                    let r = second.result->Ok_0;
                    let evaluated = host.run(turned, second_steps);
                    assert(evaluated.frames.drop_last() =~= before.frames);
                    assert(evaluated.frames.last() == holding);
                    let applied = evaluated.step(host.event(evaluated));
                    let plain = second.state.binary(op, l, r);
                    assert(operates(before, applied, plain));
                    let total = lemma_operation(
                        host,
                        before,
                        before,
                        (1 + first_steps + 1 + second_steps) as nat,
                        first.printed + second.printed,
                        evaluated,
                        applied,
                        plain,
                    );
                    total
                }
            }
        },
        _ => 0,
    }
}

/// `or` and `and`: the left operand, and the right one where the left does
/// not decide.
proof fn lemma_logical<'a>(host: Host, before: State<'a>, expr: &'a Expression, fuel: nat) -> (total:
    nat)
    requires
        *expr is Logical,
        before.control == Control::Evaluate(expr),
        host.evaluate_logical(bare(before), expr, fuel) is Some,
    ensures
        arrives(host, before, total, host.evaluate_logical(bare(before), expr, fuel)->Some_0),
    decreases fuel, 0nat, expr, 1nat,
{
    match expr {
        Expression::Logical { left, op, right } => {
            let waiting = Frame::Logical { op, right: &**right };
            let entered = before.step(host.event(before)).state;
            assert(entered == before.push(waiting).go(Control::Evaluate(&**left)).state);
            assert(bare(entered) == bare(before));
            let first_steps = lemma_evaluate(host, entered, &**left, fuel);
            let first = host.evaluate(bare(before), &**left, fuel)->Some_0;
            if first.result is Err {
                (1 + first_steps) as nat
            } else {
                let value = first.result->Ok_0;
                let reached = host.run(entered, first_steps);
                assert(reached.frames.drop_last() =~= before.frames);
                assert(reached.frames.last() == waiting);
                let decided = reached.step(host.event(reached));
                lemma_one_step(host, reached);
                lemma_goes_on(host, entered, first_steps, 1);
                assert(first.printed + Seq::<PieceView>::empty() =~= first.printed);
                let goes_right = (op.token_type == TokenType::OR && !value.truthy()) || (
                op.token_type == TokenType::AND && value.truthy());
                if goes_right {
                    let turned = decided.state;
                    assert(turned == resumed(
                        before,
                        first.state,
                        Control::Evaluate(&**right),
                    ));
                    assert(bare(turned) == first.state);
                    let second_steps = lemma_evaluate(host, turned, &**right, fuel);
                    lemma_goes_on(host, entered, first_steps + 1, second_steps);
                    (1 + first_steps + 1 + second_steps) as nat
                } else {
                    (1 + first_steps + 1) as nat
                }
            }
        },
        _ => 0,
    }
}

/// A property write: the object, the value, and the write as one operation.
proof fn lemma_set_property<'a>(host: Host, before: State<'a>, expr: &'a Expression, fuel: nat) -> (total:
    nat)
    requires
        *expr is SetProperty,
        before.control == Control::Evaluate(expr),
        host.evaluate_set(bare(before), expr, fuel) is Some,
    ensures
        arrives(host, before, total, host.evaluate_set(bare(before), expr, fuel)->Some_0),
    decreases fuel, 0nat, expr, 1nat,
{
    match expr {
        Expression::SetProperty { object, name, value } => {
            let waiting = Frame::SetObject { name, value: &**value };
            let entered = before.step(host.event(before)).state;
            assert(entered == before.push(waiting).go(Control::Evaluate(&**object)).state);
            assert(bare(entered) == bare(before));
            let first_steps = lemma_evaluate(host, entered, &**object, fuel);
            let target = host.evaluate(bare(before), &**object, fuel)->Some_0;
            if target.result is Err {
                (1 + first_steps) as nat
            } else {
                let reached = host.run(entered, first_steps);
                assert(reached.frames.drop_last() =~= before.frames);
                assert(reached.frames.last() == waiting);
                let checked = reached.step(host.event(reached));
                lemma_one_step(host, reached);
                lemma_goes_on(host, entered, first_steps, 1);
                assert(target.printed + Seq::<PieceView>::empty() =~= target.printed);
                match target.result->Ok_0 {
                    Value::Instance(instance) => {
                        if instance < target.state.instances.len() {
                            let holding = Frame::SetValue { instance, name };
                            let turned = checked.state;
                            assert(turned == resumed(
                                before,
                                target.state,
                                Control::Evaluate(&**value),
                            ).push(holding));
                            assert(bare(turned) == target.state);
                            let second_steps = lemma_evaluate(host, turned, &**value, fuel);
                            let written = host.evaluate(target.state, &**value, fuel)->Some_0;
                            lemma_goes_on(host, entered, first_steps + 1, second_steps);
                            if written.result is Err {
                                (1 + first_steps + 1 + second_steps) as nat
                            } else {
                                let evaluated = host.run(turned, second_steps);
                                assert(evaluated.frames.drop_last() =~= before.frames);
                                assert(evaluated.frames.last() == holding);
                                let applied = evaluated.step(host.event(evaluated));
                                let plain = written.state.resume(holding, written.result->Ok_0);
                                assert(operates(before, applied, plain));
                                lemma_operation(
                                    host,
                                    before,
                                    before,
                                    (1 + first_steps + 1 + second_steps) as nat,
                                    target.printed + written.printed,
                                    evaluated,
                                    applied,
                                    plain,
                                )
                            }
                        } else {
                            (1 + first_steps + 1) as nat
                        }
                    },
                    _ => (1 + first_steps + 1) as nat,
                }
            }
        },
        _ => 0,
    }
}

/// As [`lemma_operation`], for an operation that ends a statement: what
/// it prints is printed, and the statement is done or has failed.
proof fn lemma_completion<'a>(
    host: Host,
    before: State<'a>,
    steps: nat,
    printed: Seq<PieceView>,
    reached: State<'a>,
    applied: Outcome<'a>,
    plain: Outcome<'a>,
) -> (total: nat)
    requires
        host.run(before, steps) == reached,
        host.printed(before, steps) == printed,
        host.ended(before, steps) is None,
        reached.step(host.event(reached)) == applied,
        applied.action == plain.action,
        match plain.action {
            ActionView::Failed(_) => applied.state == plain.state,
            _ => applied.state == resumed(before, plain.state, Control::Deliver(Value::Nil))
                && plain.state.control == Control::Deliver(Value::Nil),
        },
        !(plain.action is Finished),
    ensures
        completes(
            host,
            before,
            total,
            Done { printed: printed + host.completed(plain).printed, ..host.completed(plain) },
        ),
{
    lemma_one_step(host, reached);
    lemma_goes_on(host, before, steps, 1);
    assert(printed + Seq::<PieceView>::empty() =~= printed);
    (steps + 1) as nat
}

/// A statement that evaluates an expression and ends with one operation on
/// its value: the machine puts `frame` on the stack, evaluates `part`, and
/// the frame takes the value.
proof fn lemma_statement_of<'a>(
    host: Host,
    before: State<'a>,
    frame: Frame<'a>,
    part: &'a Expression,
    fuel: nat,
) -> (total: nat)
    requires
        before.step(host.event(before)) == before.push(frame).go(Control::Evaluate(part)),
        host.evaluate(bare(before), part, fuel) is Some,
        frame is Print || frame is Define || frame is Superclass || frame is Discard,
    ensures
        ({
            let value = host.evaluate(bare(before), part, fuel)->Some_0;
            completes(
                host,
                before,
                total,
                if value.result is Err {
                    crate::meaning::stopped(value)
                } else {
                    Done {
                        printed: value.printed + host.completed(
                            value.state.resume(frame, value.result->Ok_0),
                        ).printed,
                        ..host.completed(value.state.resume(frame, value.result->Ok_0))
                    }
                },
            )
        }),
    decreases fuel, 0nat, part, 3nat,
{
    let entered = before.push(frame).go(Control::Evaluate(part)).state;
    assert(bare(entered) == bare(before));
    let steps = lemma_evaluate(host, entered, part, fuel);
    let value = host.evaluate(bare(before), part, fuel)->Some_0;
    if value.result is Err {
        (1 + steps) as nat
    } else {
        let reached = host.run(entered, steps);
        assert(reached.frames.drop_last() =~= before.frames);
        assert(reached.frames.last() == frame);
        let applied = reached.step(host.event(reached));
        let plain = value.state.resume(frame, value.result->Ok_0);
        lemma_completion(
            host,
            before,
            (1 + steps) as nat,
            value.printed,
            reached,
            applied,
            plain,
        )
    }
}

/// A statement that is one operation and no more.
proof fn lemma_declaration<'a>(host: Host, before: State<'a>, statement: &'a Statement) -> (total:
    nat)
    requires
        before.control == Control::Execute(statement),
        *statement is Function || (*statement matches Statement::Variable { init, .. } && init is None)
            || (*statement matches Statement::Class { superclass, .. } && superclass is None),
    ensures
        completes(host, before, total, host.completed(bare(before).execute(statement))),
{
    let empty = Seq::<PieceView>::empty();
    let plain = bare(before).execute(statement);
    assert(host.run(before, 0) == before);
    assert(host.printed(before, 0) == empty);
    let total = lemma_completion(
        host,
        before,
        0,
        empty,
        before,
        before.step(host.event(before)),
        plain,
    );
    assert(empty + host.completed(plain).printed =~= host.completed(plain).printed);
    total
}

/// The machine stands at a sequence of statements of which those before
/// `from` are done: the frame of the sequence is on top, and a value is
/// delivered to it. It arrives at the effect of the rest, with the frame
/// of the sequence gone.
proof fn lemma_execute_all<'a>(
    host: Host,
    before: State<'a>,
    statements: &'a Vec<Statement>,
    from: nat,
    fuel: nat,
) -> (total: nat)
    requires
        before.control is Deliver,
        before.frames.len() > 0,
        before.frames.last() == (Frame::Sequence { statements, next: from as usize }),
        from <= statements@.len() <= usize::MAX,
        host.execute_all(bare(before), statements, from, fuel) is Some,
    ensures
        sequence_done(
            host,
            before,
            total,
            host.execute_all(bare(before), statements, from, fuel)->Some_0,
        ),
    decreases fuel, 1nat, statements, statements@.len() - from,
{
    let under = before.popped();
    lemma_one_step(host, before);
    let next = before.step(host.event(before));
    if from >= statements@.len() {
        assert(next.state == resumed(under, bare(before), Control::Deliver(Value::Nil)));
        1
    } else {
        let entered = next.state;
        assert(entered == under.push(
            Frame::Sequence { statements, next: (from + 1) as usize },
        ).go(Control::Execute(&statements[from as int])).state);
        assert(bare(entered) == bare(before));
        let first_steps = lemma_execute(host, entered, &statements[from as int], fuel);
        let first = host.execute(bare(before), &statements[from as int], fuel)->Some_0;
        lemma_goes_on(host, before, 1, first_steps);
        assert(Seq::<PieceView>::empty() + first.printed =~= first.printed);
        if first.result is Err {
            (1 + first_steps) as nat
        } else {
            let reached = host.run(entered, first_steps);
            match first.result->Ok_0 {
                Flow::Break(value) => {
                    lemma_one_step(host, reached);
                    lemma_goes_on(host, before, 1 + first_steps, 1);
                    assert(reached.frames.drop_last() =~= under.frames);
                    assert(first.printed + Seq::<PieceView>::empty() =~= first.printed);
                    (1 + first_steps + 1) as nat
                },
                Flow::Next => {
                    assert(bare(reached) == first.state);
                    assert(reached.popped().frames =~= under.frames);
                    let rest_steps = lemma_execute_all(
                        host,
                        reached,
                        statements,
                        from + 1,
                        fuel,
                    );
                    lemma_goes_on(host, before, 1 + first_steps, rest_steps);
                    (1 + first_steps + rest_steps) as nat
                },
            }
        }
    }
}

/// What [`lemma_execute_all`] arrives at.
pub open spec fn sequence_done<'a>(
    host: Host,
    before: State<'a>,
    steps: nat,
    done: Done<'a, Flow>,
) -> bool {
    &&& host.printed(before, steps) == done.printed
    &&& done.state == bare(done.state)
    &&& match done.result {
        Ok(flow) => host.run(before, steps) == (State {
            control: match flow {
                Flow::Next => Control::Deliver(Value::Nil),
                Flow::Break(value) => Control::Return(value),
            },
            frames: before.frames.drop_last(),
            operands: before.operands,
            ..done.state
        }) && host.ended(before, steps) is None,
        Err(error) => host.run(before, steps) == done.state && host.ended(before, steps) == Some(
            ActionView::Failed(error),
        ),
    }
}

/// The machine arrives at the effect of a statement.
pub proof fn lemma_execute<'a>(host: Host, before: State<'a>, statement: &'a Statement, fuel: nat) -> (total:
    nat)
    requires
        before.control == Control::Execute(statement),
        host.execute(bare(before), statement, fuel) is Some,
    ensures
        completes(host, before, total, host.execute(bare(before), statement, fuel)->Some_0),
    decreases fuel, 1nat, statement, 2nat,
{
    match statement {
        Statement::Block(_) => lemma_block(host, before, statement, fuel),
        Statement::Class { .. } => lemma_class(host, before, statement, fuel),
        Statement::Expression(_) => lemma_expression_statement(host, before, statement, fuel),
        Statement::Function(_) => lemma_declaration(host, before, statement),
        Statement::If { .. } => lemma_if(host, before, statement, fuel),
        Statement::Print(_) => lemma_print(host, before, statement, fuel),
        Statement::Return { .. } => lemma_return(host, before, statement, fuel),
        Statement::Variable { .. } => lemma_variable_statement(host, before, statement, fuel),
        Statement::While { .. } => lemma_while(host, before, statement, fuel),
    }
}

/// A block: a new scope, the statements, and the scope from before.
proof fn lemma_block<'a>(host: Host, before: State<'a>, statement: &'a Statement, fuel: nat) -> (total:
    nat)
    requires
        *statement is Block,
        before.control == Control::Execute(statement),
        host.execute_block(bare(before), statement, fuel) is Some,
    ensures
        completes(host, before, total, host.execute_block(bare(before), statement, fuel)->Some_0),
    decreases fuel, 1nat, statement, 0nat,
{
    match statement {
        Statement::Block(statements) => {
            lemma_one_step(host, before);
            let entered = before.step(host.event(before)).state;
            let inside = State {
                current: before.scopes.len() as usize,
                ..bare(before).enclose(before.current, Map::<Seq<char>, Value>::empty())
            };
            assert(bare(entered) == inside);
            assert(statements@.len() == statements.len());
            let steps = lemma_execute_all(host, entered, statements, 0, fuel);
            let body = host.execute_all(inside, statements, 0, fuel)->Some_0;
            lemma_goes_on(host, before, 1, steps);
            assert(Seq::<PieceView>::empty() + body.printed =~= body.printed);
            if body.result is Err {
                (1 + steps) as nat
            } else {
                let reached = host.run(entered, steps);
                assert(reached.frames.last() == (Frame::Restore { saved: before.current }));
                assert(reached.frames.drop_last() =~= before.frames);
                lemma_one_step(host, reached);
                lemma_goes_on(host, before, 1 + steps, 1);
                assert(body.printed + Seq::<PieceView>::empty() =~= body.printed);
                (1 + steps + 1) as nat
            }
        },
        _ => 0,
    }
}

/// A class declaration: the superclass, if any, and the declaration as one
/// operation.
proof fn lemma_class<'a>(host: Host, before: State<'a>, statement: &'a Statement, fuel: nat) -> (total:
    nat)
    requires
        *statement is Class,
        before.control == Control::Execute(statement),
        host.execute_class(bare(before), statement, fuel) is Some,
    ensures
        completes(host, before, total, host.execute_class(bare(before), statement, fuel)->Some_0),
    decreases fuel, 1nat, statement, 0nat,
{
    match statement {
        Statement::Class { name, superclass, methods } => match superclass {
            Some(expr) => lemma_statement_of(
                host,
                before,
                Frame::Superclass { name, methods },
                expr,
                fuel,
            ),
            None => lemma_declaration(host, before, statement),
        },
        _ => 0,
    }
}

/// An `if`: the condition, and the branch that it chooses.
proof fn lemma_if<'a>(host: Host, before: State<'a>, statement: &'a Statement, fuel: nat) -> (total:
    nat)
    requires
        *statement is If,
        before.control == Control::Execute(statement),
        host.execute_if(bare(before), statement, fuel) is Some,
    ensures
        completes(host, before, total, host.execute_if(bare(before), statement, fuel)->Some_0),
    decreases fuel, 1nat, statement, 0nat,
{
    match statement {
        Statement::If { condition, then_branch, else_branch } => {
            let waiting = Frame::If { then_branch: &**then_branch, else_branch };
            lemma_one_step(host, before);
            let entered = before.step(host.event(before)).state;
            assert(entered == before.push(waiting).go(Control::Evaluate(condition)).state);
            assert(bare(entered) == bare(before));
            let first_steps = lemma_evaluate(host, entered, condition, fuel);
            let tested = host.evaluate(bare(before), condition, fuel)->Some_0;
            if tested.result is Err {
                (1 + first_steps) as nat
            } else {
                let reached = host.run(entered, first_steps);
                assert(reached.frames.drop_last() =~= before.frames);
                assert(reached.frames.last() == waiting);
                lemma_one_step(host, reached);
                lemma_goes_on(host, before, 1 + first_steps, 1);
                assert(tested.printed + Seq::<PieceView>::empty() =~= tested.printed);
                let chosen = reached.step(host.event(reached)).state;
                if tested.result->Ok_0.truthy() {
                    assert(chosen == resumed(
                        before,
                        tested.state,
                        Control::Execute(&**then_branch),
                    ));
                    assert(bare(chosen) == tested.state);
                    let rest = lemma_execute(host, chosen, &**then_branch, fuel);
                    lemma_goes_on(host, before, 1 + first_steps + 1, rest);
                    (1 + first_steps + 1 + rest) as nat
                } else {
                    match else_branch {
                        Some(otherwise) => {
                            assert(chosen == resumed(
                                before,
                                tested.state,
                                Control::Execute(&**otherwise),
                            ));
                            assert(bare(chosen) == tested.state);
                            let rest = lemma_execute(host, chosen, &**otherwise, fuel);
                            lemma_goes_on(host, before, 1 + first_steps + 1, rest);
                            (1 + first_steps + 1 + rest) as nat
                        },
                        None => (1 + first_steps + 1) as nat,
                    }
                }
            }
        },
        _ => 0,
    }
}

/// The machine stands in the loop `statement`: the frame of the condition
/// is on top, and the condition is to be evaluated.
pub open spec fn in_loop<'a>(state: State<'a>, statement: &'a Statement) -> bool {
    match statement {
        Statement::While { condition, body } => {
            &&& state.control == Control::Evaluate(condition)
            &&& state.frames.len() > 0
            &&& state.frames.last() == (Frame::WhileCondition { condition, body: &**body })
        },
        _ => false,
    }
}

/// The machine stands in a `while` loop. It arrives at the effect of the
/// loop, with the frame of the condition gone.
proof fn lemma_loop<'a>(host: Host, before: State<'a>, statement: &'a Statement, fuel: nat) -> (total:
    nat)
    requires
        in_loop(before, statement),
        host.execute_while(bare(before), statement, fuel) is Some,
    ensures
        sequence_done(
            host,
            before,
            total,
            host.execute_while(bare(before), statement, fuel)->Some_0,
        ),
    decreases fuel, 1nat, statement, 0nat,
{
    match statement {
        Statement::While { condition, body } => {
            let under = before.popped();
            let first_steps = lemma_evaluate(host, before, condition, fuel);
            let tested = host.evaluate(bare(before), condition, fuel)->Some_0;
            if tested.result is Err {
                first_steps
            } else {
                let reached = host.run(before, first_steps);
                lemma_one_step(host, reached);
                lemma_goes_on(host, before, first_steps, 1);
                assert(tested.printed + Seq::<PieceView>::empty() =~= tested.printed);
                let turned = reached.step(host.event(reached)).state;
                if !tested.result->Ok_0.truthy() {
                    (first_steps + 1) as nat
                } else {
                    let looping = Frame::WhileBody { condition, body: &**body };
                    assert(turned == (State {
                        control: Control::Execute(&**body),
                        frames: under.frames.push(looping),
                        operands: before.operands,
                        ..tested.state
                    }));
                    assert(bare(turned) == tested.state);
                    let body_steps = lemma_execute(host, turned, &**body, fuel);
                    let turn = host.execute(tested.state, &**body, fuel)->Some_0;
                    lemma_goes_on(host, before, first_steps + 1, body_steps);
                    if turn.result is Err {
                        (first_steps + 1 + body_steps) as nat
                    } else {
                        let ended = host.run(turned, body_steps);
                        lemma_one_step(host, ended);
                        lemma_goes_on(host, before, first_steps + 1 + body_steps, 1);
                        assert(ended.frames.drop_last() =~= under.frames);
                        assert(tested.printed + turn.printed + Seq::<PieceView>::empty()
                            =~= tested.printed + turn.printed);
                        match turn.result->Ok_0 {
                            Flow::Break(value) => {
                                (first_steps + 1 + body_steps + 1) as nat
                            },
                            Flow::Next => {
                                let again = ended.step(host.event(ended)).state;
                                assert(again == (State {
                                    control: Control::Evaluate(condition),
                                    frames: under.frames.push(
                                        Frame::WhileCondition { condition, body: &**body },
                                    ),
                                    operands: before.operands,
                                    ..turn.state
                                }));
                                assert(bare(again) == turn.state);
                                assert(again.frames.drop_last() =~= under.frames);
                                let rest = lemma_loop(host, again, statement, (fuel - 1) as nat);
                                lemma_goes_on(
                                    host,
                                    before,
                                    first_steps + 1 + body_steps + 1,
                                    rest,
                                );
                                (first_steps + 1 + body_steps + 1 + rest) as nat
                            },
                        }
                    }
                }
            }
        },
        _ => 0,
    }
}

/// A `while`: one step into the loop, and the loop.
proof fn lemma_while<'a>(host: Host, before: State<'a>, statement: &'a Statement, fuel: nat) -> (total:
    nat)
    requires
        *statement is While,
        before.control == Control::Execute(statement),
        host.execute_while(bare(before), statement, fuel) is Some,
    ensures
        completes(host, before, total, host.execute_while(bare(before), statement, fuel)->Some_0),
    decreases fuel, 1nat, statement, 1nat,
{
    match statement {
        Statement::While { condition, body } => {
            lemma_one_step(host, before);
            let entered = before.step(host.event(before)).state;
            assert(entered == before.push(
                Frame::WhileCondition { condition, body: &**body },
            ).go(Control::Evaluate(condition)).state);
            assert(bare(entered) == bare(before));
            assert(entered.frames.drop_last() =~= before.frames);
            let steps = lemma_loop(host, entered, statement, fuel);
            let done = host.execute_while(bare(before), statement, fuel)->Some_0;
            lemma_goes_on(host, before, 1, steps);
            assert(Seq::<PieceView>::empty() + done.printed =~= done.printed);
            (1 + steps) as nat
        },
        _ => 0,
    }
}

/// A `return`: the value, if any, and the `return` on its way.
proof fn lemma_return<'a>(host: Host, before: State<'a>, statement: &'a Statement, fuel: nat) -> (total:
    nat)
    requires
        *statement is Return,
        before.control == Control::Execute(statement),
        host.execute_return(bare(before), statement, fuel) is Some,
    ensures
        completes(host, before, total, host.execute_return(bare(before), statement, fuel)->Some_0),
    decreases fuel, 1nat, statement, 0nat,
{
    match statement {
        Statement::Return { keyword, value } => {
            lemma_one_step(host, before);
            match value {
                Some(expr) => {
                    let entered = before.step(host.event(before)).state;
                    assert(entered == before.push(Frame::Return).go(
                        Control::Evaluate(expr),
                    ).state);
                    assert(bare(entered) == bare(before));
                    let steps = lemma_evaluate(host, entered, expr, fuel);
                    let returned = host.evaluate(bare(before), expr, fuel)->Some_0;
                    if returned.result is Err {
                        (1 + steps) as nat
                    } else {
                        let reached = host.run(entered, steps);
                        assert(reached.frames.drop_last() =~= before.frames);
                        assert(reached.frames.last() == Frame::Return);
                        lemma_one_step(host, reached);
                        lemma_goes_on(host, before, 1 + steps, 1);
                        assert(returned.printed + Seq::<PieceView>::empty()
                            =~= returned.printed);
                        (1 + steps + 1) as nat
                    }
                },
                None => 1,
            }
        },
        _ => 0,
    }
}

/// An expression statement: the expression, and its value dropped.
proof fn lemma_expression_statement<'a>(
    host: Host,
    before: State<'a>,
    statement: &'a Statement,
    fuel: nat,
) -> (total: nat)
    requires
        *statement is Expression,
        before.control == Control::Execute(statement),
        host.execute_expression(bare(before), statement, fuel) is Some,
    ensures
        completes(
            host,
            before,
            total,
            host.execute_expression(bare(before), statement, fuel)->Some_0,
        ),
    decreases fuel, 1nat, statement, 0nat,
{
    match statement {
        Statement::Expression(expr) => lemma_statement_of(
            host,
            before,
            Frame::Discard,
            expr,
            fuel,
        ),
        _ => 0,
    }
}

/// A `print`: the expression, and its value printed.
proof fn lemma_print<'a>(host: Host, before: State<'a>, statement: &'a Statement, fuel: nat) -> (total:
    nat)
    requires
        *statement is Print,
        before.control == Control::Execute(statement),
        host.execute_print(bare(before), statement, fuel) is Some,
    ensures
        completes(host, before, total, host.execute_print(bare(before), statement, fuel)->Some_0),
    decreases fuel, 1nat, statement, 0nat,
{
    match statement {
        Statement::Print(expr) => lemma_statement_of(host, before, Frame::Print, expr, fuel),
        _ => 0,
    }
}

/// A variable declaration: the initializer, if any, and the definition.
proof fn lemma_variable_statement<'a>(
    host: Host,
    before: State<'a>,
    statement: &'a Statement,
    fuel: nat,
) -> (total: nat)
    requires
        *statement is Variable,
        before.control == Control::Execute(statement),
        host.execute_variable(bare(before), statement, fuel) is Some,
    ensures
        completes(host, before, total, host.execute_variable(bare(before), statement, fuel)->Some_0),
    decreases fuel, 1nat, statement, 0nat,
{
    match statement {
        Statement::Variable { name, init } => match init {
            Some(expr) => lemma_statement_of(host, before, Frame::Define { name }, expr, fuel),
            None => lemma_declaration(host, before, statement),
        },
        _ => 0,
    }
}

/// The machine is about to enter a function of the program: its next step
/// is the call of `function` with the values `given`, made on the state
/// `heap` with the frames and operands of `under`. It lands at the result
/// of the call.
proof fn lemma_enter<'a>(
    host: Host,
    start: State<'a>,
    under: State<'a>,
    steps: nat,
    printed: Seq<PieceView>,
    reached: State<'a>,
    heap: State<'a>,
    function: LoxFunction<'a>,
    handle: usize,
    given: Seq<Value>,
    fuel: nat,
) -> (total: nat)
    requires
        host.run(start, steps) == reached,
        host.printed(start, steps) == printed,
        host.ended(start, steps) is None,
        heap == bare(heap),
        reached.step(host.event(reached)) == resumed(under, heap, reached.control).call_function(
            function,
            handle,
            given,
        ),
        host.call_function(heap, function, handle, given, fuel) is Some,
    ensures
        ({
            let done = host.call_function(heap, function, handle, given, fuel)->Some_0;
            lands(host, start, under, total, Done { printed: printed + done.printed, ..done })
        }),
    decreases fuel, 0nat, function, 0nat,
{
    let entering = resumed(under, heap, reached.control);
    let applied = entering.call_function(function, handle, given);
    let params = function.declaration.params@;
    if given.len() != params.len() {
        let plain = heap.call_function(function, handle, given);
        assert(operates(under, applied, plain));
        lemma_operation(host, start, under, steps, printed, reached, applied, plain)
    } else {
        let body = &function.declaration.body;
        let entered = applied.state;
        let inside = State {
            current: heap.scopes.len() as usize,
            ..heap.enclose(function.closure, bound_parameters(params, given, params.len()))
        };
        assert(bare(entered) == inside);
        assert(body@.len() == body.len());
        lemma_one_step(host, reached);
        lemma_goes_on(host, start, steps, 1);
        assert(printed + Seq::<PieceView>::empty() =~= printed);
        let body_steps = lemma_execute_all(host, entered, body, 0, (fuel - 1) as nat);
        let ran = host.execute_all(inside, body, 0, (fuel - 1) as nat)->Some_0;
        lemma_goes_on(host, start, steps + 1, body_steps);
        if ran.result is Err {
            (steps + 1 + body_steps) as nat
        } else {
            let left = host.run(entered, body_steps);
            let calling = Frame::Call { function: handle, saved: heap.current };
            assert(left.frames =~= under.frames.push(calling).push(
                Frame::Restore { saved: heap.current },
            ));
            lemma_one_step(host, left);
            lemma_goes_on(host, start, steps + 1 + body_steps, 1);
            let restored = left.step(host.event(left)).state;
            assert(restored.frames =~= under.frames.push(calling));
            lemma_one_step(host, restored);
            lemma_goes_on(host, start, steps + 1 + body_steps + 1, 1);
            let returned = restored.step(host.event(restored)).state;
            assert(returned.frames =~= under.frames);
            assert(printed + ran.printed + Seq::<PieceView>::empty() + Seq::<PieceView>::empty()
                =~= printed + ran.printed);
            (steps + 1 + body_steps + 2) as nat
        }
    }
}

/// The machine is about to make a call: its next step is the call of
/// `callee` with the values `given`, made on the state `heap` with the
/// frames and operands of `under`. It lands at the result of the call.
proof fn lemma_invoke<'a>(
    host: Host,
    start: State<'a>,
    under: State<'a>,
    steps: nat,
    printed: Seq<PieceView>,
    reached: State<'a>,
    heap: State<'a>,
    callee: Value,
    given: Seq<Value>,
    fuel: nat,
) -> (total: nat)
    requires
        host.run(start, steps) == reached,
        host.printed(start, steps) == printed,
        host.ended(start, steps) is None,
        heap == bare(heap),
        reached.step(host.event(reached)) == resumed(under, heap, reached.control).invoke(
            callee,
            given,
        ),
        host.call(heap, callee, given, fuel) is Some,
    ensures
        ({
            let done = host.call(heap, callee, given, fuel)->Some_0;
            lands(host, start, under, total, Done { printed: printed + done.printed, ..done })
        }),
    decreases fuel, 0nat, callee, 1nat,
{
    let entering = resumed(under, heap, reached.control);
    let applied = entering.invoke(callee, given);
    match callee {
        Value::Function(handle) => {
            if handle < heap.functions.len() {
                match heap.functions[handle as int] {
                    Callable::Function(function) => lemma_enter(
                        host,
                        start,
                        under,
                        steps,
                        printed,
                        reached,
                        heap,
                        function,
                        handle,
                        given,
                        (fuel - 1) as nat,
                    ),
                    Callable::Native(native) => {
                        let plain = heap.invoke(callee, given);
                        assert(operates(under, applied, plain));
                        lemma_operation(host, start, under, steps, printed, reached, applied, plain)
                    },
                }
            } else {
                let plain = heap.fail(crate::machine::type_error(CAN_ONLY_CALL@));
                assert(operates(under, applied, plain));
                lemma_operation(host, start, under, steps, printed, reached, applied, plain)
            }
        },
        Value::Class(class) => {
            if class < heap.classes.len() {
                lemma_instantiate(
                    host,
                    start,
                    under,
                    steps,
                    printed,
                    reached,
                    heap,
                    class,
                    given,
                    fuel,
                )
            } else {
                let plain = heap.fail(crate::machine::type_error(CAN_ONLY_CALL@));
                assert(operates(under, applied, plain));
                lemma_operation(host, start, under, steps, printed, reached, applied, plain)
            }
        },
        _ => {
            let plain = heap.fail(crate::machine::type_error(CAN_ONLY_CALL@));
            assert(operates(under, applied, plain));
            lemma_operation(host, start, under, steps, printed, reached, applied, plain)
        },
    }
}

/// The machine is about to make an instance of the class `class`.
proof fn lemma_instantiate<'a>(
    host: Host,
    start: State<'a>,
    under: State<'a>,
    steps: nat,
    printed: Seq<PieceView>,
    reached: State<'a>,
    heap: State<'a>,
    class: usize,
    given: Seq<Value>,
    fuel: nat,
) -> (total: nat)
    requires
        host.run(start, steps) == reached,
        host.printed(start, steps) == printed,
        host.ended(start, steps) is None,
        heap == bare(heap),
        class < heap.classes.len(),
        reached.step(host.event(reached)) == resumed(under, heap, reached.control).instantiate(
            class,
            given,
        ),
        host.call(heap, Value::Class(class), given, fuel) is Some,
    ensures
        ({
            let done = host.call(heap, Value::Class(class), given, fuel)->Some_0;
            lands(host, start, under, total, Done { printed: printed + done.printed, ..done })
        }),
    decreases fuel, 0nat, Value::Class(class), 0nat,
{
    let entering = resumed(under, heap, reached.control);
    let applied = entering.instantiate(class, given);
    let instance = heap.instances.len() as usize;
    let made = State {
        instances: heap.instances.push(
            LoxInstanceView { class, fields: Map::<Seq<char>, Value>::empty() },
        ),
        ..heap
    };
    match heap.find_method(class, INIT_METHOD@) {
        Some(initializer) => {
            if given.len() != initializer.declaration.params@.len() {
                let plain = heap.instantiate(class, given);
                assert(operates(under, applied, plain));
                lemma_operation(host, start, under, steps, printed, reached, applied, plain)
            } else {
                let building = Frame::Construct { instance };
                let below = State { frames: under.frames.push(building), ..under };
                let bound = made.bind(initializer, instance);
                assert(bound == bare(bound));
                assert(applied == resumed(below, bound, reached.control).call_function(
                    made.bound_method(initializer),
                    made.functions.len() as usize,
                    given,
                ));
                let call_steps = lemma_enter(
                    host,
                    start,
                    below,
                    steps,
                    printed,
                    reached,
                    bound,
                    made.bound_method(initializer),
                    made.functions.len() as usize,
                    given,
                    (fuel - 1) as nat,
                );
                let initialized = host.call_function(
                    bound,
                    made.bound_method(initializer),
                    made.functions.len() as usize,
                    given,
                    (fuel - 1) as nat,
                )->Some_0;
                if initialized.result is Err {
                    call_steps
                } else {
                    let built = host.run(start, call_steps);
                    assert(built.frames.drop_last() =~= under.frames);
                    lemma_one_step(host, built);
                    lemma_goes_on(host, start, call_steps, 1);
                    assert(printed + initialized.printed + Seq::<PieceView>::empty() =~= printed
                        + initialized.printed);
                    (call_steps + 1) as nat
                }
            }
        },
        None => {
            let plain = heap.instantiate(class, given);
            assert(operates(under, applied, plain));
            lemma_operation(host, start, under, steps, printed, reached, applied, plain)
        },
    }
}

/// What the call of `callee` comes to once the argument at `from` has the
/// value that `argument` says: the rest of the arguments and the call, or
/// the error of the argument.
proof fn lemma_call_with_unfolds<'a>(
    host: Host,
    state: State<'a>,
    callee: Value,
    arguments: &'a Vec<Expression>,
    from: nat,
    found: Seq<Value>,
    fuel: nat,
)
    requires
        from < arguments@.len(),
        host.call_with(state, callee, arguments, from, found, fuel) is Some,
    ensures
        host.evaluate(state, &arguments[from as int], fuel) is Some,
        ({
            let argument = host.evaluate(state, &arguments[from as int], fuel)->Some_0;
            let done = host.call_with(state, callee, arguments, from, found, fuel)->Some_0;
            if argument.result is Err {
                done == crate::meaning::stopped::<Value, Value>(argument)
            } else {
                let all = found.push(argument.result->Ok_0);
                if from + 1 < arguments@.len() {
                    &&& host.call_with(argument.state, callee, arguments, from + 1, all, fuel) is Some
                    &&& done == (Done {
                        printed: argument.printed + host.call_with(
                            argument.state,
                            callee,
                            arguments,
                            from + 1,
                            all,
                            fuel,
                        )->Some_0.printed,
                        ..host.call_with(argument.state, callee, arguments, from + 1, all, fuel)->Some_0
                    })
                } else {
                    &&& fuel > 0
                    &&& host.call(argument.state, callee, all, (fuel - 1) as nat) is Some
                    &&& done == (Done {
                        printed: argument.printed + host.call(
                            argument.state,
                            callee,
                            all,
                            (fuel - 1) as nat,
                        )->Some_0.printed,
                        ..host.call(argument.state, callee, all, (fuel - 1) as nat)->Some_0
                    })
                }
            }
        }),
{
    reveal_with_fuel(Host::evaluate_all, 3);
    let argument = host.evaluate(state, &arguments[from as int], fuel)->Some_0;
    if argument.result is Ok {
        let all = found.push(argument.result->Ok_0);
        let rest = host.evaluate_all(argument.state, arguments, from + 1, all, fuel)->Some_0;
        if from + 1 < arguments@.len() {
            if rest.result is Ok {
                let called = host.call(rest.state, callee, rest.result->Ok_0, (fuel - 1) as nat)->Some_0;
                assert(argument.printed + rest.printed + called.printed =~= argument.printed + (
                rest.printed + called.printed));
            }
        } else {
            let called = host.call(argument.state, callee, all, (fuel - 1) as nat)->Some_0;
            assert(argument.printed + Seq::<PieceView>::empty() + called.printed
                =~= argument.printed + called.printed);
        }
    }
}

/// The step that hands the value of the argument at `from` to the call:
/// the next argument is evaluated, or the call is made.
proof fn lemma_argument_taken<'a>(
    reached: State<'a>,
    under: State<'a>,
    callee: Value,
    arguments: &'a Vec<Expression>,
    from: nat,
    found: Seq<Value>,
    value: Value,
    event: crate::machine::Event,
)
    requires
        from < arguments@.len() <= usize::MAX,
        found.len() == from,
        reached.control == Control::Deliver(value),
        reached.frames == under.frames.push(
            Frame::Arguments { callee, arguments, count: from as usize },
        ),
        reached.operands == under.operands + found,
    ensures
        ({
            let next = reached.step(event);
            if from + 1 < arguments@.len() {
                next == (Outcome {
                    state: State {
                        control: Control::Evaluate(&arguments[from + 1 as int]),
                        frames: under.frames.push(
                            Frame::Arguments { callee, arguments, count: (from + 1) as usize },
                        ),
                        operands: under.operands + found.push(value),
                        ..reached
                    },
                    action: ActionView::Continue,
                })
            } else {
                next == resumed(under, bare(reached), reached.control).invoke(
                    callee,
                    found.push(value),
                )
            }
        }),
{
    let all = found.push(value);
    assert(reached.frames.drop_last() =~= under.frames);
    let taken = State { operands: reached.operands.push(value), frames: under.frames, ..reached };
    assert(reached.popped() == (State { frames: under.frames, ..reached }));
    assert(reached.step(event) == taken.arguments(callee, arguments, from + 1));
    assert(taken.operands =~= under.operands + all);
    if from + 1 >= arguments@.len() {
        assert(taken.collected(from + 1) =~= all);
        assert(taken.kept(from + 1) =~= under.operands);
    }
}

/// The machine evaluates the argument at `from` of a call; the values
/// `found` of the arguments before it are the last operands. It lands at
/// the result of the call.
proof fn lemma_arguments<'a>(
    host: Host,
    start: State<'a>,
    under: State<'a>,
    steps: nat,
    printed: Seq<PieceView>,
    at: State<'a>,
    callee: Value,
    arguments: &'a Vec<Expression>,
    from: nat,
    found: Seq<Value>,
    fuel: nat,
) -> (total: nat)
    requires
        host.run(start, steps) == at,
        host.printed(start, steps) == printed,
        host.ended(start, steps) is None,
        from < arguments@.len(),
        found.len() == from,
        at.control == Control::Evaluate(&arguments[from as int]),
        at.frames == under.frames.push(
            Frame::Arguments { callee, arguments, count: from as usize },
        ),
        at.operands == under.operands + found,
        host.call_with(bare(at), callee, arguments, from, found, fuel) is Some,
    ensures
        ({
            let done = host.call_with(bare(at), callee, arguments, from, found, fuel)->Some_0;
            lands(host, start, under, total, Done { printed: printed + done.printed, ..done })
        }),
    decreases fuel, 0nat, arguments, arguments@.len() - from,
{
    assert(arguments@.len() == arguments.len());
    lemma_call_with_unfolds(host, bare(at), callee, arguments, from, found, fuel);
    let argument_steps = lemma_evaluate(host, at, &arguments[from as int], fuel);
    let argument = host.evaluate(bare(at), &arguments[from as int], fuel)->Some_0;
    lemma_goes_on(host, start, steps, argument_steps);
    if argument.result is Err {
        (steps + argument_steps) as nat
    } else {
        let value = argument.result->Ok_0;
        let reached = host.run(at, argument_steps);
        let all = found.push(value);
        lemma_argument_taken(
            reached,
            under,
            callee,
            arguments,
            from,
            found,
            value,
            host.event(reached),
        );
        assert(bare(reached) == argument.state);
        if from + 1 < arguments@.len() {
            lemma_one_step(host, reached);
            lemma_goes_on(host, start, steps + argument_steps, 1);
            let next = reached.step(host.event(reached)).state;
            assert(bare(next) == argument.state);
            assert(printed + argument.printed + Seq::<PieceView>::empty() =~= printed
                + argument.printed);
            let total = lemma_arguments(
                host,
                start,
                under,
                steps + argument_steps + 1,
                printed + argument.printed,
                next,
                callee,
                arguments,
                from + 1,
                all,
                fuel,
            );
            let rest = host.call_with(argument.state, callee, arguments, from + 1, all, fuel)->Some_0;
            assert(printed + argument.printed + rest.printed =~= printed + (argument.printed
                + rest.printed));
            total
        } else {
            let total = lemma_invoke(
                host,
                start,
                under,
                steps + argument_steps,
                printed + argument.printed,
                reached,
                argument.state,
                callee,
                all,
                (fuel - 1) as nat,
            );
            let called = host.call(argument.state, callee, all, (fuel - 1) as nat)->Some_0;
            assert(printed + argument.printed + called.printed =~= printed + (argument.printed
                + called.printed));
            total
        }
    }
}

/// The step that hands the value of the callee to the call: the first
/// argument is evaluated, or the call is made at once.
proof fn lemma_callee_taken<'a>(
    reached: State<'a>,
    under: State<'a>,
    arguments: &'a Vec<Expression>,
    function: Value,
    event: crate::machine::Event,
)
    requires
        reached.control == Control::Deliver(function),
        reached.frames == under.frames.push(Frame::Callee { arguments }),
        reached.operands == under.operands,
    ensures
        ({
            let next = reached.step(event);
            if 0 < arguments@.len() {
                next == (Outcome {
                    state: State {
                        control: Control::Evaluate(&arguments[0]),
                        frames: under.frames.push(
                            Frame::Arguments { callee: function, arguments, count: 0 },
                        ),
                        operands: under.operands + Seq::<Value>::empty(),
                        ..reached
                    },
                    action: ActionView::Continue,
                })
            } else {
                next == resumed(under, bare(reached), reached.control).invoke(
                    function,
                    Seq::<Value>::empty(),
                )
            }
        }),
{
    assert(reached.frames.drop_last() =~= under.frames);
    let popped = State { frames: under.frames, ..reached };
    assert(reached.popped() == popped);
    assert(reached.step(event) == popped.arguments(function, arguments, 0));
    assert(under.operands + Seq::<Value>::empty() =~= under.operands);
    if arguments@.len() == 0 {
        assert(popped.collected(0) =~= Seq::<Value>::empty());
        assert(popped.kept(0) =~= under.operands);
    }
}

/// A call: the callee, the arguments, and the call.
proof fn lemma_call_expression<'a>(host: Host, before: State<'a>, expr: &'a Expression, fuel: nat) -> (total:
    nat)
    requires
        *expr is Call,
        before.control == Control::Evaluate(expr),
        host.evaluate_call(bare(before), expr, fuel) is Some,
    ensures
        arrives(host, before, total, host.evaluate_call(bare(before), expr, fuel)->Some_0),
    decreases fuel, 0nat, expr, 1nat,
{
    match expr {
        Expression::Call { callee, paren_line, arguments } => {
            let waiting = Frame::Callee { arguments };
            lemma_one_step(host, before);
            let entered = before.step(host.event(before)).state;
            assert(entered == before.push(waiting).go(Control::Evaluate(&**callee)).state);
            assert(bare(entered) == bare(before));
            let callee_steps = lemma_evaluate(host, entered, &**callee, fuel);
            let called = host.evaluate(bare(before), &**callee, fuel)->Some_0;
            lemma_goes_on(host, before, 1, callee_steps);
            assert(Seq::<PieceView>::empty() + called.printed =~= called.printed);
            if called.result is Err {
                (1 + callee_steps) as nat
            } else {
                let function = called.result->Ok_0;
                let reached = host.run(entered, callee_steps);
                let none = Seq::<Value>::empty();
                lemma_callee_taken(reached, before, arguments, function, host.event(reached));
                assert(bare(reached) == called.state);
                let rest = host.call_with(called.state, function, arguments, 0, none, fuel)->Some_0;
                if 0 < arguments@.len() {
                    lemma_one_step(host, reached);
                    lemma_goes_on(host, before, 1 + callee_steps, 1);
                    let at = reached.step(host.event(reached)).state;
                    assert(bare(at) == called.state);
                    assert(called.printed + Seq::<PieceView>::empty() =~= called.printed);
                    lemma_arguments(
                        host,
                        before,
                        before,
                        1 + callee_steps + 1,
                        called.printed,
                        at,
                        function,
                        arguments,
                        0,
                        none,
                        fuel,
                    )
                } else {
                    let result = host.call(called.state, function, none, (fuel - 1) as nat)->Some_0;
                    assert(rest == (Done {
                        printed: Seq::<PieceView>::empty() + result.printed,
                        ..result
                    }));
                    assert(Seq::<PieceView>::empty() + result.printed =~= result.printed);
                    lemma_invoke(
                        host,
                        before,
                        before,
                        1 + callee_steps,
                        called.printed,
                        reached,
                        called.state,
                        function,
                        none,
                        (fuel - 1) as nat,
                    )
                }
            }
        },
        _ => 0,
    }
}

/// A program that is loaded and stepped by a host runs as it means: the
/// machine prints what the program prints, then finishes, or fails with the
/// error of the program, and leaves what the program has made.
///
/// A program that a `return` leaves at the top level finishes with the
/// value returned, every other with `nil`.
pub proof fn lemma_program<'a>(
    host: Host,
    state: State<'a>,
    statements: &'a Vec<Statement>,
    fuel: nat,
) -> (total: nat)
    requires
        host.program(state, statements, fuel) is Some,
    ensures
        ({
            let done = host.program(state, statements, fuel)->Some_0;
            let loaded = state.load(statements);
            &&& host.printed(loaded, total) == done.printed
            &&& host.run(loaded, total) == done.state
            &&& host.ended(loaded, total) == Some(
                match done.result {
                    Ok(Flow::Next) => ActionView::Finished(Value::Nil),
                    Ok(Flow::Break(value)) => ActionView::Finished(value),
                    Err(error) => ActionView::Failed(error),
                },
            )
        }),
{
    let loaded = state.load(statements);
    assert(statements@.len() == statements.len());
    let steps = lemma_execute_all(host, loaded, statements, 0, fuel);
    let done = host.program(state, statements, fuel)->Some_0;
    if done.result is Err {
        steps
    } else {
        let reached = host.run(loaded, steps);
        assert(reached.frames =~= Seq::<Frame>::empty());
        lemma_one_step(host, reached);
        lemma_goes_on(host, loaded, steps, 1);
        assert(done.printed + Seq::<PieceView>::empty() =~= done.printed);
        assert(reached.operands =~= Seq::<Value>::empty());
        (steps + 1) as nat
    }
}

/// An expression that is evaluated with nothing waiting for its value:
/// the machine prints what the expression prints and finishes with its
/// value, or fails with its error.
pub proof fn lemma_expression<'a>(host: Host, state: State<'a>, expr: &'a Expression, fuel: nat) -> (total:
    nat)
    requires
        host.evaluate(bare(state), expr, fuel) is Some,
    ensures
        ({
            let done = host.evaluate(bare(state), expr, fuel)->Some_0;
            let started = State { control: Control::Evaluate(expr), ..bare(state) };
            &&& host.printed(started, total) == done.printed
            &&& host.run(started, total) == done.state
            &&& host.ended(started, total) == Some(
                match done.result {
                    Ok(value) => ActionView::Finished(value),
                    Err(error) => ActionView::Failed(error),
                },
            )
        }),
{
    let started = State { control: Control::Evaluate(expr), ..bare(state) };
    assert(bare(started) == bare(state));
    let steps = lemma_evaluate(host, started, expr, fuel);
    let done = host.evaluate(bare(state), expr, fuel)->Some_0;
    if done.result is Err {
        steps
    } else {
        let reached = host.run(started, steps);
        lemma_one_step(host, reached);
        lemma_goes_on(host, started, steps, 1);
        assert(done.printed + Seq::<PieceView>::empty() =~= done.printed);
        (steps + 1) as nat
    }
}

} // verus!
