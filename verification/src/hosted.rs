//! The machine together with a caller whose answers are functions of the
//! question.
//!
//! The interpreter leaves the arithmetic of doubles to its caller. Here the
//! caller is a [`Host`], any pair of functions, and the theorem is that an
//! arithmetic expression evaluates to what its tree gives in the host's
//! arithmetic: the machine adds nothing to the caller's numbers and takes
//! nothing from them.

use vstd::prelude::*;
use crate::grammar::{Expression, Literal, TokenType};
use crate::machine::{
    arithmetic_of, ActionView, Arithmetic, Control, Event, Frame, Request, State,
};
use crate::render::PieceView;
use crate::value::{number_negated, Value};

verus! {

/// A caller that answers every question by a function of the question.
pub struct Host {
    /// The result of an operator on two doubles.
    pub arithmetic: spec_fn(Arithmetic, u64, u64) -> u64,
    /// The double that a numeral denotes.
    pub number: spec_fn(Seq<char>) -> u64,
    /// The time.
    pub clock: u64,
}

impl Host {
    /// The answer to a request.
    pub open spec fn answer(self, request: Request) -> u64 {
        match request {
            Request::Arithmetic { operator, left, right } => (self.arithmetic)(operator, left, right),
            Request::ParseNumber(numeral) => (self.number)(numeral@),
            Request::Clock => self.clock,
        }
    }

    /// What the host hands to the next step of the machine.
    pub open spec fn event(self, state: State) -> Event {
        match state.control {
            Control::Pending(request) => Event::Number(self.answer(request)),
            _ => Event::Resume,
        }
    }

    /// The state after `steps` steps with this host.
    pub open spec fn run<'a>(self, state: State<'a>, steps: nat) -> State<'a>
        decreases steps,
    {
        if steps == 0 {
            state
        } else {
            self.run(state.step(self.event(state)).state, (steps - 1) as nat)
        }
    }

    /// The lines that the machine hands out to print in `steps` steps.
    pub open spec fn printed<'a>(self, state: State<'a>, steps: nat) -> Seq<PieceView>
        decreases steps,
    {
        if steps == 0 {
            Seq::empty()
        } else {
            let first = state.step(self.event(state));
            match first.action {
                ActionView::Print(piece) => seq![piece] + self.printed(
                    first.state,
                    (steps - 1) as nat,
                ),
                _ => self.printed(first.state, (steps - 1) as nat),
            }
        }
    }

    /// The first end of a run within `steps` steps: the action by which
    /// the machine finished or failed.
    pub open spec fn ended<'a>(self, state: State<'a>, steps: nat) -> Option<ActionView>
        decreases steps,
    {
        if steps == 0 {
            None
        } else {
            let first = state.step(self.event(state));
            match first.action {
                ActionView::Finished(_) => Some(first.action),
                ActionView::Failed(_) => Some(first.action),
                _ => self.ended(first.state, (steps - 1) as nat),
            }
        }
    }

    /// The value of an arithmetic expression in the host's arithmetic:
    /// numerals, groupings, negations, and the operators `+ - * /`.
    pub open spec fn value(self, expr: Expression) -> Option<u64>
        decreases expr,
    {
        match expr {
            Expression::Literal(Literal::Number(numeral)) => Some((self.number)(numeral@)),
            Expression::Grouping(inner) => self.value(*inner),
            Expression::Unary { op, right } => match self.value(*right) {
                Some(bits) => if op.token_type == TokenType::MINUS {
                    Some(number_negated(bits))
                } else {
                    None
                },
                None => None,
            },
            Expression::Binary { left, op, right } => match (
                self.value(*left),
                self.value(*right),
            ) {
                (Some(l), Some(r)) => if is_arithmetic(op.token_type) {
                    Some((self.arithmetic)(arithmetic_of(op.token_type), l, r))
                } else {
                    None
                },
                _ => None,
            },
            _ => None,
        }
    }
}

/// The tokens of the four operators.
pub open spec fn is_arithmetic(operator: TokenType) -> bool {
    operator == TokenType::PLUS || operator == TokenType::MINUS || operator == TokenType::STAR
        || operator == TokenType::SLASH
}

/// The number of steps that the machine takes on an arithmetic expression.
pub open spec fn steps(expr: Expression) -> nat
    decreases expr,
{
    match expr {
        Expression::Grouping(inner) => 1 + steps(*inner),
        Expression::Unary { op, right } => 2 + steps(*right),
        Expression::Binary { left, op, right } => 4 + steps(*left) + steps(*right),
        _ => 2,
    }
}

/// Steps add up.
pub proof fn lemma_run_in_two_parts<'a>(host: Host, state: State<'a>, first: nat, second: nat)
    ensures
        host.run(state, first + second) == host.run(host.run(state, first), second),
    decreases first,
{
    if first > 0 {
        lemma_run_in_two_parts(
            host,
            state.step(host.event(state)).state,
            (first - 1) as nat,
            second,
        );
    }
}

/// What is printed adds up, and the first end of a run is its end.
pub proof fn lemma_effects_in_two_parts<'a>(host: Host, state: State<'a>, first: nat, second: nat)
    ensures
        host.printed(state, first + second) == host.printed(state, first) + host.printed(
            host.run(state, first),
            second,
        ),
        host.ended(state, first + second) == if host.ended(state, first) is Some {
            host.ended(state, first)
        } else {
            host.ended(host.run(state, first), second)
        },
    decreases first,
{
    if first > 0 {
        let next = state.step(host.event(state)).state;
        lemma_effects_in_two_parts(host, next, (first - 1) as nat, second);
        assert(host.printed(state, first + second) =~= host.printed(state, first) + host.printed(
            host.run(state, first),
            second,
        ));
    } else {
        assert(host.printed(state, first + second) =~= host.printed(state, first) + host.printed(
            host.run(state, first),
            second,
        ));
    }
}

/// An arithmetic expression evaluates to the value that its tree has in
/// the caller's arithmetic, and that is all it does: after the steps of the
/// expression the machine delivers that number, and nothing else of the
/// state has changed.
///
/// With a caller that computes in double precision, the number is the one
/// that double-precision arithmetic gives for the tree.
pub proof fn lemma_arithmetic_follows_the_tree<'a>(
    host: Host,
    state: State<'a>,
    expr: &'a Expression,
)
    requires
        host.value(*expr) is Some,
        state.control == Control::Evaluate(expr),
    ensures
        host.run(state, steps(*expr)) == (State {
            control: Control::Deliver(Value::Number(host.value(*expr)->Some_0)),
            ..state
        }),
    decreases expr,
{
    match expr {
        Expression::Literal(literal) => {
            let asked = state.step(host.event(state)).state;
            assert(host.run(asked, 1) == asked.step(host.event(asked)).state) by {
                assert(host.run(asked.step(host.event(asked)).state, 0) == asked.step(
                    host.event(asked),
                ).state);
            }
            assert(host.run(state, 2) == host.run(asked, 1));
        },
        Expression::Grouping(inner) => {
            let entered = state.step(host.event(state)).state;
            lemma_arithmetic_follows_the_tree(host, entered, &**inner);
            assert(host.run(state, steps(*expr)) == host.run(entered, steps(**inner)));
        },
        Expression::Unary { op, right } => {
            let entered = state.step(host.event(state)).state;
            let frame = Frame::Unary { op };
            assert(entered == state.push(frame).go(Control::Evaluate(&**right)).state);
            lemma_arithmetic_follows_the_tree(host, entered, &**right);
            let operand = host.value(**right)->Some_0;
            let evaluated = host.run(entered, steps(**right));
            assert(evaluated.frames.drop_last() =~= state.frames);
            assert(evaluated.frames.last() == frame);
            let applied = evaluated.step(host.event(evaluated)).state;
            assert(applied == (State {
                control: Control::Deliver(Value::Number(number_negated(operand))),
                ..state
            }));
            assert(host.run(evaluated, 1) == applied) by {
                assert(host.run(applied, 0) == applied);
            }
            lemma_run_in_two_parts(host, entered, steps(**right), 1);
            assert(host.run(state, steps(*expr)) == host.run(entered, steps(**right) + 1));
        },
        Expression::Binary { left, op, right } => {
            let operator = arithmetic_of(op.token_type);
            let l = host.value(**left)->Some_0;
            let r = host.value(**right)->Some_0;
            // the left operand
            let entered = state.step(host.event(state)).state;
            let waiting = Frame::BinaryRight { op, right: &**right };
            assert(entered == state.push(waiting).go(Control::Evaluate(&**left)).state);
            lemma_arithmetic_follows_the_tree(host, entered, &**left);
            let first = host.run(entered, steps(**left));
            assert(first.frames.drop_last() =~= state.frames);
            assert(first.frames.last() == waiting);
            // the right operand
            let turned = first.step(host.event(first)).state;
            let holding = Frame::BinaryApply { op, left: Value::Number(l) };
            assert(turned == state.push(holding).go(Control::Evaluate(&**right)).state);
            lemma_arithmetic_follows_the_tree(host, turned, &**right);
            let second = host.run(turned, steps(**right));
            assert(second.frames.drop_last() =~= state.frames);
            assert(second.frames.last() == holding);
            // the operator
            let asked = second.step(host.event(second)).state;
            assert(asked == (State {
                control: Control::Pending(Request::Arithmetic { operator, left: l, right: r }),
                ..state
            }));
            let answered = asked.step(host.event(asked)).state;
            assert(answered == (State {
                control: Control::Deliver(Value::Number((host.arithmetic)(operator, l, r))),
                ..state
            }));
            // the steps, added up
            assert(host.run(asked, 1) == answered) by {
                assert(host.run(answered, 0) == answered);
            }
            assert(host.run(second, 2) == answered);
            lemma_run_in_two_parts(host, turned, steps(**right), 2);
            assert(host.run(turned, steps(**right) + 2) == answered);
            assert(host.run(first, steps(**right) + 3) == answered);
            lemma_run_in_two_parts(host, entered, steps(**left), steps(**right) + 3);
            assert(host.run(entered, steps(**left) + steps(**right) + 3) == answered);
            assert(host.run(state, steps(*expr)) == host.run(
                entered,
                (steps(*expr) - 1) as nat,
            ));
        },
        _ => {},
    }
}

} // verus!
