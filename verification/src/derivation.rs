//! What the parser makes of an expression is a parse tree of the grammar.
//!
//! Two things make a tree a parse tree: the tokens it is written with are
//! the tokens that were read, in order, and every node stands where the
//! grammar lets it stand, which is what gives the operators their
//! precedence and makes them associate to the left. Both are proved here
//! of [`crate::syntax::expression`], hence of the parser.

use vstd::prelude::*;
use crate::grammar::{ExpressionView, LiteralView, TokenType, TokenView};
use crate::syntax::{
    advance, arguments, assignment, binary, binary_rest, call, call_rest, check, consume,
    expression, finish_call, is_at_end, left, operator_at, peek, primary, unary,
    well_formed, Cursor, MAX_ARITY,
};

verus! {

/// The kinds of the tokens from `from` up to `to`.
pub open spec fn kinds(tokens: Seq<TokenView>, from: nat, to: nat) -> Seq<TokenType> {
    Seq::new((to - from) as nat, |i: int| tokens[from + i].token_type)
}

/// The kind of the token that a literal is written with.
pub open spec fn literal_kind(literal: LiteralView) -> TokenType {
    match literal {
        LiteralView::Nil => TokenType::NIL,
        LiteralView::Boolean(b) => if b {
            TokenType::TRUE
        } else {
            TokenType::FALSE
        },
        LiteralView::String(_) => TokenType::STRING,
        LiteralView::Number(_) => TokenType::NUMBER,
    }
}

/// The kinds of the tokens that an expression is written with, in order.
pub open spec fn written(expr: ExpressionView) -> Seq<TokenType>
    decreases expr,
{
    match expr {
        ExpressionView::Assign { id, name, value } => seq![TokenType::IDENTIFIER, TokenType::EQUAL]
            + written(*value),
        ExpressionView::Binary { left, op, right } => written(*left) + seq![op.token_type]
            + written(*right),
        ExpressionView::Call { callee, paren_line, arguments } => written(*callee)
            + seq![TokenType::LEFT_PAREN] + written_list(arguments, arguments.len())
            + seq![TokenType::RIGHT_PAREN],
        ExpressionView::Get { object, name } => written(*object)
            + seq![TokenType::DOT, TokenType::IDENTIFIER],
        ExpressionView::Grouping(inner) => seq![TokenType::LEFT_PAREN] + written(*inner)
            + seq![TokenType::RIGHT_PAREN],
        ExpressionView::Literal(literal) => seq![literal_kind(literal)],
        ExpressionView::Logical { left, op, right } => written(*left) + seq![op.token_type]
            + written(*right),
        ExpressionView::SetProperty { object, name, value } => written(*object)
            + seq![TokenType::DOT, TokenType::IDENTIFIER, TokenType::EQUAL] + written(*value),
        ExpressionView::Super { id, keyword, method } => seq![
            TokenType::SUPER,
            TokenType::DOT,
            TokenType::IDENTIFIER,
        ],
        ExpressionView::This { id, keyword } => seq![TokenType::THIS],
        ExpressionView::Unary { op, right } => seq![op.token_type] + written(*right),
        ExpressionView::Variable { id, name } => seq![TokenType::IDENTIFIER],
    }
}

/// The kinds of the tokens that the first `count` of the expressions are
/// written with, commas between them.
pub open spec fn written_list(exprs: Seq<ExpressionView>, count: nat) -> Seq<TokenType>
    decreases exprs, count,
{
    if count == 0 || count > exprs.len() {
        Seq::empty()
    } else if count == 1 {
        written(exprs[0])
    } else {
        written_list(exprs, (count - 1) as nat) + seq![TokenType::COMMA] + written(
            exprs[count - 1],
        )
    }
}

/// The level of a binary operator: 1 for `* /`, 2 for `+ -`, 3 for the
/// comparisons, 4 for the equalities, 5 for `and`, 6 for `or`.
pub open spec fn level_of(operator: TokenType) -> nat {
    if operator_at(1, operator) {
        1
    } else if operator_at(2, operator) {
        2
    } else if operator_at(3, operator) {
        3
    } else if operator_at(4, operator) {
        4
    } else if operator_at(5, operator) {
        5
    } else if operator_at(6, operator) {
        6
    } else {
        0
    }
}

/// How loosely an expression binds: 0 for what `call` derives, 1 for a
/// unary operator, one more than its level for a binary operator, and 8
/// for an assignment.
pub open spec fn tier(expr: ExpressionView) -> nat {
    match expr {
        ExpressionView::Assign { .. } => 8,
        ExpressionView::SetProperty { .. } => 8,
        ExpressionView::Binary { left, op, right } => level_of(op.token_type) + 1,
        ExpressionView::Logical { left, op, right } => level_of(op.token_type) + 1,
        ExpressionView::Unary { .. } => 1,
        _ => 0,
    }
}

/// Every node of the expression stands where the grammar lets it stand.
///
/// A binary operator has on its left what binds no looser than itself and
/// on its right what binds tighter: that is precedence, and association to
/// the left. A unary operator, a call and a property take operands that
/// bind as tightly as themselves. A grouping, an argument and the value of
/// an assignment are any expression.
pub open spec fn grammatical(expr: ExpressionView) -> bool
    decreases expr,
{
    match expr {
        ExpressionView::Assign { id, name, value } => name.token_type == TokenType::IDENTIFIER
            && grammatical(*value),
        ExpressionView::Binary { left, op, right } => {
            &&& 1 <= level_of(op.token_type) <= 4
            &&& tier(*left) <= tier(expr)
            &&& tier(*right) < tier(expr)
            &&& grammatical(*left)
            &&& grammatical(*right)
        },
        ExpressionView::Call { callee, paren_line, arguments } => {
            &&& tier(*callee) == 0
            &&& grammatical(*callee)
            &&& arguments.len() <= MAX_ARITY
            &&& forall|i: int| 0 <= i < arguments.len() ==> grammatical(#[trigger] arguments[i])
        },
        ExpressionView::Get { object, name } => {
            &&& tier(*object) == 0
            &&& grammatical(*object)
            &&& name.token_type == TokenType::IDENTIFIER
        },
        ExpressionView::Grouping(inner) => grammatical(*inner),
        ExpressionView::Literal(_) => true,
        ExpressionView::Logical { left, op, right } => {
            &&& 5 <= level_of(op.token_type) <= 6
            &&& tier(*left) <= tier(expr)
            &&& tier(*right) < tier(expr)
            &&& grammatical(*left)
            &&& grammatical(*right)
        },
        ExpressionView::SetProperty { object, name, value } => {
            &&& tier(*object) == 0
            &&& grammatical(*object)
            &&& name.token_type == TokenType::IDENTIFIER
            &&& grammatical(*value)
        },
        ExpressionView::Super { id, keyword, method } => keyword.token_type == TokenType::SUPER
            && method.token_type == TokenType::IDENTIFIER,
        ExpressionView::This { id, keyword } => keyword.token_type == TokenType::THIS,
        ExpressionView::Unary { op, right } => {
            &&& op.token_type == TokenType::BANG || op.token_type == TokenType::MINUS
            &&& tier(*right) <= 1
            &&& grammatical(*right)
        },
        ExpressionView::Variable { id, name } => name.token_type == TokenType::IDENTIFIER,
    }
}

/// The expression `expr` is a parse tree, no looser than `loosest`, of the
/// tokens from `from` up to `to`.
pub open spec fn derives(
    tokens: Seq<TokenView>,
    from: Cursor,
    to: Cursor,
    expr: ExpressionView,
    loosest: nat,
) -> bool {
    &&& from.current <= to.current < tokens.len()
    &&& written(expr) == kinds(tokens, from.current, to.current)
    &&& grammatical(expr)
    &&& tier(expr) <= loosest
}

/// The kinds of adjoining stretches of tokens, joined.
proof fn lemma_kinds_join(tokens: Seq<TokenView>, from: nat, mid: nat, to: nat)
    requires
        from <= mid <= to <= tokens.len(),
    ensures
        kinds(tokens, from, mid) + kinds(tokens, mid, to) == kinds(tokens, from, to),
{
    assert(kinds(tokens, from, mid) + kinds(tokens, mid, to) =~= kinds(tokens, from, to));
}

/// The kinds of a stretch of one token.
proof fn lemma_kinds_one(tokens: Seq<TokenView>, at: nat)
    requires
        at < tokens.len(),
    ensures
        kinds(tokens, at, at + 1) == seq![tokens[at as int].token_type],
        kinds(tokens, at, at) == Seq::<TokenType>::empty(),
{
    assert(kinds(tokens, at, at + 1) =~= seq![tokens[at as int].token_type]);
    assert(kinds(tokens, at, at) =~= Seq::<TokenType>::empty());
}

proof fn lemma_primary(tokens: Seq<TokenView>, c: Cursor)
    requires
        well_formed(tokens),
        c.current < tokens.len(),
    ensures
        primary(tokens, c).result matches Ok(expr) ==> derives(
            tokens,
            c,
            primary(tokens, c).cursor,
            expr,
            0,
        ) && primary(tokens, c).cursor.current > c.current,
    decreases left(tokens, c), 0nat,
{
    let token = peek(tokens, c);
    let after = advance(tokens, c);
    lemma_kinds_one(tokens, c.current);
    if check(tokens, c, TokenType::FALSE) || check(tokens, c, TokenType::TRUE) || check(
        tokens,
        c,
        TokenType::NIL,
    ) || check(tokens, c, TokenType::NUMBER) || check(tokens, c, TokenType::STRING) {
    } else if check(tokens, c, TokenType::SUPER) {
        let dot = consume(tokens, after, TokenType::DOT, "Expect '.' after 'super'."@);
        if dot.result is Ok {
            let method = consume(
                tokens,
                dot.cursor,
                TokenType::IDENTIFIER,
                "Expect superclass method name."@,
            );
            if method.result is Ok {
                assert(kinds(tokens, c.current, method.cursor.current) =~= seq![
                    TokenType::SUPER,
                    TokenType::DOT,
                    TokenType::IDENTIFIER,
                ]);
            }
        }
    } else if check(tokens, c, TokenType::THIS) || check(tokens, c, TokenType::IDENTIFIER) {
    } else if check(tokens, c, TokenType::LEFT_PAREN) {
        lemma_expression(tokens, after);
        let inner = expression(tokens, after);
        if inner.result is Ok {
            let paren = consume(
                tokens,
                inner.cursor,
                TokenType::RIGHT_PAREN,
                "Expect ')' after expression."@,
            );
            if paren.result is Ok {
                lemma_kinds_one(tokens, inner.cursor.current);
                lemma_kinds_join(tokens, c.current, after.current, inner.cursor.current);
                lemma_kinds_join(tokens, c.current, inner.cursor.current, paren.cursor.current);
            }
        }
    }
}

proof fn lemma_arguments(
    tokens: Seq<TokenView>,
    c: Cursor,
    found: Seq<ExpressionView>,
    start: nat,
)
    requires
        well_formed(tokens),
        start <= c.current < tokens.len(),
        forall|i: int| 0 <= i < found.len() ==> grammatical(#[trigger] found[i]),
        kinds(tokens, start, c.current) == if found.len() == 0 {
            Seq::<TokenType>::empty()
        } else {
            written_list(found, found.len()) + seq![TokenType::COMMA]
        },
    ensures
        arguments(tokens, c, found).result matches Ok(all) ==> {
            let end = arguments(tokens, c, found).cursor;
            &&& c.current <= end.current < tokens.len()
            &&& all.len() <= MAX_ARITY
            &&& forall|i: int| 0 <= i < all.len() ==> grammatical(#[trigger] all[i])
            &&& kinds(tokens, start, end.current) == written_list(all, all.len())
        },
    decreases left(tokens, c), 22nat,
{
    if found.len() < MAX_ARITY {
        lemma_expression(tokens, c);
        let argument = expression(tokens, c);
        if argument.result is Ok {
            let next = found.push(argument.result->Ok_0);
            lemma_kinds_join(tokens, start, c.current, argument.cursor.current);
            assert(written_list(next, next.len()) == kinds(
                tokens,
                start,
                argument.cursor.current,
            )) by {
                lemma_written_list_grows(found, argument.result->Ok_0);
            }
            if check(tokens, argument.cursor, TokenType::COMMA) {
                let after = advance(tokens, argument.cursor);
                lemma_kinds_one(tokens, argument.cursor.current);
                lemma_kinds_join(tokens, start, argument.cursor.current, after.current);
                lemma_arguments(tokens, after, next, start);
            }
        }
    }
}

/// The list written with one expression more.
proof fn lemma_written_list_grows(found: Seq<ExpressionView>, added: ExpressionView)
    ensures
        written_list(found.push(added), found.len() + 1) == if found.len() == 0 {
            written(added)
        } else {
            written_list(found, found.len()) + seq![TokenType::COMMA] + written(added)
        },
{
    let next = found.push(added);
    if found.len() > 0 {
        lemma_written_list_prefix(found, added, found.len());
    }
}

/// The first expressions of a list are written the same whatever follows.
proof fn lemma_written_list_prefix(found: Seq<ExpressionView>, added: ExpressionView, count: nat)
    requires
        count <= found.len(),
    ensures
        written_list(found.push(added), count) == written_list(found, count),
    decreases count,
{
    if count > 1 {
        lemma_written_list_prefix(found, added, (count - 1) as nat);
        assert(found.push(added)[count - 1] == found[count - 1]);
    } else if count == 1 {
        assert(found.push(added)[0] == found[0]);
    }
}

proof fn lemma_finish_call(tokens: Seq<TokenView>, c: Cursor, callee: ExpressionView, start: nat)
    requires
        well_formed(tokens),
        start < c.current < tokens.len(),
        tier(callee) == 0,
        grammatical(callee),
        written(callee) + seq![TokenType::LEFT_PAREN] == kinds(tokens, start, c.current),
    ensures
        finish_call(tokens, c, callee).result matches Ok(expr) ==> derives(
            tokens,
            Cursor { current: start, next_id: 0 },
            finish_call(tokens, c, callee).cursor,
            expr,
            0,
        ) && finish_call(tokens, c, callee).cursor.current > c.current,
    decreases left(tokens, c), 23nat,
{
    lemma_kinds_one(tokens, c.current);
    let found = if check(tokens, c, TokenType::RIGHT_PAREN) {
        crate::syntax::done(Seq::<ExpressionView>::empty(), c)
    } else {
        lemma_arguments(tokens, c, Seq::<ExpressionView>::empty(), c.current);
        arguments(tokens, c, Seq::<ExpressionView>::empty())
    };
    if found.result is Ok {
        let all = found.result->Ok_0;
        assert(kinds(tokens, c.current, found.cursor.current) == written_list(all, all.len()));
        let paren = consume(
            tokens,
            found.cursor,
            TokenType::RIGHT_PAREN,
            "Expect ')' after arguments."@,
        );
        if paren.result is Ok {
            lemma_kinds_one(tokens, found.cursor.current);
            lemma_kinds_join(tokens, start, c.current, found.cursor.current);
            lemma_kinds_join(tokens, start, found.cursor.current, paren.cursor.current);
        }
    }
}

proof fn lemma_call_rest(
    tokens: Seq<TokenView>,
    c: Cursor,
    bound: nat,
    expr: ExpressionView,
    start: nat,
)
    requires
        well_formed(tokens),
        start < c.current < tokens.len(),
        left(tokens, c) <= bound,
        tier(expr) == 0,
        grammatical(expr),
        written(expr) == kinds(tokens, start, c.current),
    ensures
        call_rest(tokens, c, bound, expr).result matches Ok(all) ==> derives(
            tokens,
            Cursor { current: start, next_id: 0 },
            call_rest(tokens, c, bound, expr).cursor,
            all,
            0,
        ) && call_rest(tokens, c, bound, expr).cursor.current >= c.current,
    decreases bound, 0nat,
{
    lemma_kinds_one(tokens, c.current);
    if check(tokens, c, TokenType::LEFT_PAREN) {
        let after = advance(tokens, c);
        lemma_kinds_join(tokens, start, c.current, after.current);
        lemma_finish_call(tokens, after, expr, start);
        let made = finish_call(tokens, after, expr);
        if made.result is Ok {
            lemma_call_rest(tokens, made.cursor, left(tokens, after), made.result->Ok_0, start);
        }
    } else if check(tokens, c, TokenType::DOT) {
        let after = advance(tokens, c);
        let name = consume(tokens, after, TokenType::IDENTIFIER, "Expect property name after '.'"@);
        if name.result is Ok {
            lemma_kinds_one(tokens, after.current);
            lemma_kinds_join(tokens, start, c.current, after.current);
            lemma_kinds_join(tokens, start, after.current, name.cursor.current);
            let read = ExpressionView::Get { object: Box::new(expr), name: name.result->Ok_0 };
            assert(written(read) =~= kinds(tokens, start, name.cursor.current));
            lemma_call_rest(tokens, name.cursor, left(tokens, after), read, start);
        }
    }
}

proof fn lemma_call(tokens: Seq<TokenView>, c: Cursor)
    requires
        well_formed(tokens),
        c.current < tokens.len(),
    ensures
        call(tokens, c).result matches Ok(expr) ==> derives(
            tokens,
            c,
            call(tokens, c).cursor,
            expr,
            0,
        ) && call(tokens, c).cursor.current > c.current,
    decreases left(tokens, c), 1nat,
{
    lemma_primary(tokens, c);
    let callee = primary(tokens, c);
    if callee.result is Ok {
        lemma_call_rest(tokens, callee.cursor, left(tokens, c), callee.result->Ok_0, c.current);
    }
}

proof fn lemma_unary(tokens: Seq<TokenView>, c: Cursor)
    requires
        well_formed(tokens),
        c.current < tokens.len(),
    ensures
        unary(tokens, c).result matches Ok(expr) ==> derives(
            tokens,
            c,
            unary(tokens, c).cursor,
            expr,
            1,
        ) && unary(tokens, c).cursor.current > c.current,
    decreases left(tokens, c), 2nat,
{
    if check(tokens, c, TokenType::BANG) || check(tokens, c, TokenType::MINUS) {
        let after = advance(tokens, c);
        lemma_unary(tokens, after);
        let right = unary(tokens, after);
        if right.result is Ok {
            lemma_kinds_one(tokens, c.current);
            lemma_kinds_join(tokens, c.current, after.current, right.cursor.current);
        }
    } else {
        lemma_call(tokens, c);
    }
}

proof fn lemma_binary(tokens: Seq<TokenView>, c: Cursor, level: nat)
    requires
        well_formed(tokens),
        c.current < tokens.len(),
        level <= 6,
    ensures
        binary(tokens, c, level).result matches Ok(expr) ==> derives(
            tokens,
            c,
            binary(tokens, c, level).cursor,
            expr,
            level + 1,
        ) && binary(tokens, c, level).cursor.current > c.current,
    decreases left(tokens, c), 3 + 2 * level,
{
    if level == 0 {
        lemma_unary(tokens, c);
    } else {
        lemma_binary(tokens, c, (level - 1) as nat);
        let first = binary(tokens, c, (level - 1) as nat);
        if first.result is Ok {
            lemma_binary_rest(
                tokens,
                first.cursor,
                left(tokens, c),
                level,
                first.result->Ok_0,
                c.current,
            );
        }
    }
}

proof fn lemma_binary_rest(
    tokens: Seq<TokenView>,
    c: Cursor,
    bound: nat,
    level: nat,
    operand: ExpressionView,
    start: nat,
)
    requires
        well_formed(tokens),
        start < c.current < tokens.len(),
        left(tokens, c) <= bound,
        1 <= level <= 6,
        tier(operand) <= level + 1,
        grammatical(operand),
        written(operand) == kinds(tokens, start, c.current),
    ensures
        binary_rest(tokens, c, bound, level, operand).result matches Ok(all) ==> derives(
            tokens,
            Cursor { current: start, next_id: 0 },
            binary_rest(tokens, c, bound, level, operand).cursor,
            all,
            level + 1,
        ) && binary_rest(tokens, c, bound, level, operand).cursor.current >= c.current,
    decreases bound, 2 + 2 * level,
{
    if !is_at_end(tokens, c) && operator_at(level, peek(tokens, c).token_type) {
        let op = peek(tokens, c);
        let after = advance(tokens, c);
        lemma_binary(tokens, after, (level - 1) as nat);
        let right = binary(tokens, after, (level - 1) as nat);
        if right.result is Ok {
            let both = crate::syntax::joined(level, operand, op, right.result->Ok_0);
            lemma_kinds_one(tokens, c.current);
            lemma_kinds_join(tokens, start, c.current, after.current);
            lemma_kinds_join(tokens, start, after.current, right.cursor.current);
            assert(level_of(op.token_type) == level);
            assert(written(both) =~= kinds(tokens, start, right.cursor.current));
            lemma_binary_rest(tokens, right.cursor, left(tokens, after), level, both, start);
        }
    }
}

proof fn lemma_assignment(
    tokens: Seq<TokenView>,
    c: Cursor,
    bound: nat,
    target: ExpressionView,
    start: nat,
)
    requires
        well_formed(tokens),
        start < c.current < tokens.len(),
        left(tokens, c) <= bound,
        grammatical(target),
        tier(target) <= 7,
        written(target) == kinds(tokens, start, c.current),
    ensures
        assignment(tokens, c, bound, target).result matches Ok(all) ==> derives(
            tokens,
            Cursor { current: start, next_id: 0 },
            assignment(tokens, c, bound, target).cursor,
            all,
            8,
        ) && assignment(tokens, c, bound, target).cursor.current >= c.current,
    decreases bound, 0nat,
{
    if check(tokens, c, TokenType::EQUAL) {
        let after = advance(tokens, c);
        lemma_expression(tokens, after);
        let value = expression(tokens, after);
        if value.result is Ok {
            lemma_kinds_one(tokens, c.current);
            lemma_kinds_join(tokens, start, c.current, after.current);
            lemma_kinds_join(tokens, start, after.current, value.cursor.current);
            match target {
                ExpressionView::Variable { id, name } => {
                    let made = ExpressionView::Assign {
                        id: value.cursor.next_id as usize,
                        name,
                        value: Box::new(value.result->Ok_0),
                    };
                    assert(written(made) =~= kinds(tokens, start, value.cursor.current));
                },
                ExpressionView::Get { object, name } => {
                    let made = ExpressionView::SetProperty {
                        object,
                        name,
                        value: Box::new(value.result->Ok_0),
                    };
                    assert(written(made) =~= kinds(tokens, start, value.cursor.current));
                },
                _ => {},
            }
        }
    }
}

/// The expression that the grammar functions make of the tokens is a parse
/// tree of the tokens they read: it is written with exactly those tokens,
/// in order, and every operator in it stands at the place that its
/// precedence and left association give it. At least one token is read.
pub proof fn lemma_expression(tokens: Seq<TokenView>, c: Cursor)
    requires
        well_formed(tokens),
        c.current < tokens.len(),
    ensures
        expression(tokens, c).result matches Ok(expr) ==> derives(
            tokens,
            c,
            expression(tokens, c).cursor,
            expr,
            8,
        ) && expression(tokens, c).cursor.current > c.current,
    decreases left(tokens, c), 20nat,
{
    lemma_binary(tokens, c, 6);
    let target = binary(tokens, c, 6);
    if target.result is Ok {
        lemma_assignment(tokens, target.cursor, left(tokens, c), target.result->Ok_0, c.current);
    }
}

} // verus!
