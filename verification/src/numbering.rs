//! No two nodes of a parsed program have the same id.
//!
//! The resolver keys its table by the ids of the nodes it binds, so its
//! entries belong to one node each only if the parser numbers every node
//! apart. It does: whatever a grammar function makes carries ids of its own,
//! all different, taken from the ids that the function gave out.

use vstd::prelude::*;
use crate::grammar::{ExpressionView, FunctionView, StatementView, TokenType, TokenView};
use crate::syntax::{
    advance, arguments, assignment, binary, binary_rest, block, block_items, call, call_rest,
    check, class_declaration, consume, declaration, desugared, else_branch, expression,
    expression_statement, finish_call, for_body, for_condition, for_increment, for_statement,
    function, if_statement, is_at_end, left, methods, numbered, operator_at, parameters, peek,
    primary, program, statement, unary, variable, while_statement, Cursor, Parsed,
};

verus! {

/// The ids of the nodes of an expression that the resolver may bind.
pub open spec fn expression_ids(expr: ExpressionView) -> Seq<usize>
    decreases expr,
{
    match expr {
        ExpressionView::Assign { id, name, value } => expression_ids(*value).push(id),
        ExpressionView::Binary { left, op, right } => expression_ids(*left) + expression_ids(*right),
        ExpressionView::Call { callee, paren_line, arguments } => expression_ids(*callee)
            + list_ids(arguments, arguments.len()),
        ExpressionView::Get { object, name } => expression_ids(*object),
        ExpressionView::Grouping(inner) => expression_ids(*inner),
        ExpressionView::Literal(_) => Seq::empty(),
        ExpressionView::Logical { left, op, right } => expression_ids(*left) + expression_ids(
            *right,
        ),
        ExpressionView::SetProperty { object, name, value } => expression_ids(*object)
            + expression_ids(*value),
        ExpressionView::Super { id, keyword, method } => seq![id],
        ExpressionView::This { id, keyword } => seq![id],
        ExpressionView::Unary { op, right } => expression_ids(*right),
        ExpressionView::Variable { id, name } => seq![id],
    }
}

/// The ids in the first `count` of the expressions.
pub open spec fn list_ids(exprs: Seq<ExpressionView>, count: nat) -> Seq<usize>
    decreases exprs, count,
{
    if count == 0 || count > exprs.len() {
        Seq::empty()
    } else {
        list_ids(exprs, (count - 1) as nat) + expression_ids(exprs[count - 1])
    }
}

/// The ids of an expression that may be missing.
pub open spec fn optional_ids(expr: Option<ExpressionView>) -> Seq<usize> {
    match expr {
        Some(expr) => expression_ids(expr),
        None => Seq::empty(),
    }
}

/// The ids in a statement.
pub open spec fn statement_ids(statement: StatementView) -> Seq<usize>
    decreases statement,
{
    match statement {
        StatementView::Block(statements) => statements_ids(statements, statements.len()),
        StatementView::Class { name, superclass, methods } => optional_ids(superclass)
            + functions_ids(methods, methods.len()),
        StatementView::Expression(expr) => expression_ids(expr),
        StatementView::Function(function) => statements_ids(function.body, function.body.len()),
        StatementView::If { condition, then_branch, else_branch } => expression_ids(condition)
            + statement_ids(*then_branch) + match else_branch {
            Some(statement) => statement_ids(*statement),
            None => Seq::empty(),
        },
        StatementView::Print(expr) => expression_ids(expr),
        StatementView::Return { keyword, value } => optional_ids(value),
        StatementView::Variable { name, init } => optional_ids(init),
        StatementView::While { condition, body } => expression_ids(condition) + statement_ids(
            *body,
        ),
    }
}

/// The ids in the first `count` of the statements.
pub open spec fn statements_ids(statements: Seq<StatementView>, count: nat) -> Seq<usize>
    decreases statements, count,
{
    if count == 0 || count > statements.len() {
        Seq::empty()
    } else {
        statements_ids(statements, (count - 1) as nat) + statement_ids(statements[count - 1])
    }
}

/// The ids in the bodies of the first `count` of the functions.
pub open spec fn functions_ids(functions: Seq<FunctionView>, count: nat) -> Seq<usize>
    decreases functions, count,
{
    if count == 0 || count > functions.len() {
        Seq::empty()
    } else {
        functions_ids(functions, (count - 1) as nat) + statements_ids(
            functions[count - 1].body,
            functions[count - 1].body.len(),
        )
    }
}

/// The ids are all different, and each is at least `low` and below `high`.
pub open spec fn apart(ids: Seq<usize>, low: nat, high: nat) -> bool {
    &&& forall|i: int| 0 <= i < ids.len() ==> low <= #[trigger] ids[i] < high
    &&& forall|i: int, j: int| 0 <= i < j < ids.len() ==> ids[i] != ids[j]
}

/// Ids from two ranges that do not meet are apart together, in either order.
pub proof fn lemma_apart_join(
    first: Seq<usize>,
    second: Seq<usize>,
    low: nat,
    mid: nat,
    high: nat,
)
    requires
        apart(first, low, mid),
        apart(second, mid, high),
        low <= mid <= high,
    ensures
        apart(first + second, low, high),
        apart(second + first, low, high),
{
    let both = first + second;
    assert forall|i: int, j: int| 0 <= i < j < both.len() implies both[i] != both[j] by {
        if j < first.len() {
            assert(both[i] == first[i] && both[j] == first[j]);
        } else if i >= first.len() {
            assert(both[i] == second[i - first.len()] && both[j] == second[j - first.len()]);
        } else {
            assert(both[i] == first[i] && both[j] == second[j - first.len()]);
        }
    }
    assert forall|i: int| 0 <= i < both.len() implies low <= #[trigger] both[i] < high by {
        if i < first.len() {
            assert(both[i] == first[i]);
        } else {
            assert(both[i] == second[i - first.len()]);
        }
    }
    let other = second + first;
    assert forall|i: int, j: int| 0 <= i < j < other.len() implies other[i] != other[j] by {
        if j < second.len() {
            assert(other[i] == second[i] && other[j] == second[j]);
        } else if i >= second.len() {
            assert(other[i] == first[i - second.len()] && other[j] == first[j - second.len()]);
        } else {
            assert(other[i] == second[i] && other[j] == first[j - second.len()]);
        }
    }
    assert forall|i: int| 0 <= i < other.len() implies low <= #[trigger] other[i] < high by {
        if i < second.len() {
            assert(other[i] == second[i]);
        } else {
            assert(other[i] == first[i - second.len()]);
        }
    }
}

/// Ids that are apart in a range are apart in every range around it.
pub proof fn lemma_apart_widen(ids: Seq<usize>, low: nat, high: nat, lower: nat, higher: nat)
    requires
        apart(ids, low, high),
        lower <= low,
        high <= higher,
    ensures
        apart(ids, lower, higher),
{
}

/// The cursor is among the tokens, no more ids were given out than tokens
/// read, and every id fits the machine's integers.
pub open spec fn counted(tokens: Seq<TokenView>, c: Cursor) -> bool {
    &&& c.current < tokens.len() <= usize::MAX
    &&& c.next_id <= c.current
}

/// What a grammar function made, `part`, read on from `c`, gave out no more
/// ids than it read tokens, and the ids `ids` that it made are apart and
/// among those that it gave out.
pub open spec fn numbers<T>(
    tokens: Seq<TokenView>,
    c: Cursor,
    part: Parsed<T>,
    ids: Seq<usize>,
) -> bool {
    part.result is Ok ==> {
        &&& counted(tokens, part.cursor)
        &&& c.current <= part.cursor.current
        &&& c.next_id <= part.cursor.next_id
        &&& part.cursor.next_id - c.next_id <= part.cursor.current - c.current
        &&& apart(ids, c.next_id, part.cursor.next_id)
    }
}

/// As [`numbers`], for a function that goes on from `c` after the ids
/// from `low` on were given out.
pub open spec fn numbers_on<T>(
    tokens: Seq<TokenView>,
    c: Cursor,
    low: nat,
    part: Parsed<T>,
    ids: Seq<usize>,
) -> bool {
    part.result is Ok ==> {
        &&& counted(tokens, part.cursor)
        &&& c.current <= part.cursor.current
        &&& c.next_id <= part.cursor.next_id
        &&& part.cursor.next_id - c.next_id <= part.cursor.current - c.current
        &&& apart(ids, low, part.cursor.next_id)
    }
}

proof fn lemma_primary(tokens: Seq<TokenView>, c: Cursor)
    requires
        counted(tokens, c),
    ensures
        numbers(tokens, c, primary(tokens, c), expression_ids(primary(tokens, c).result->Ok_0)),
        primary(tokens, c).result is Ok ==> primary(tokens, c).cursor.current > c.current,
    decreases left(tokens, c), 0nat,
{
    let after = advance(tokens, c);
    if check(tokens, c, TokenType::LEFT_PAREN) {
        lemma_expression(tokens, after);
    }
}

proof fn lemma_arguments(tokens: Seq<TokenView>, c: Cursor, found: Seq<ExpressionView>, low: nat)
    requires
        counted(tokens, c),
        low <= c.next_id,
        apart(list_ids(found, found.len()), low, c.next_id),
    ensures
        numbers_on(
            tokens,
            c,
            low,
            arguments(tokens, c, found),
            list_ids(
                arguments(tokens, c, found).result->Ok_0,
                arguments(tokens, c, found).result->Ok_0.len(),
            ),
        ),
    decreases left(tokens, c), 22nat,
{
    if found.len() < crate::syntax::MAX_ARITY {
        lemma_expression(tokens, c);
        let argument = expression(tokens, c);
        if argument.result is Ok {
            let next = found.push(argument.result->Ok_0);
            lemma_list_ids_grows(found, argument.result->Ok_0);
            lemma_apart_join(
                list_ids(found, found.len()),
                expression_ids(argument.result->Ok_0),
                low,
                c.next_id,
                argument.cursor.next_id,
            );
            if check(tokens, argument.cursor, TokenType::COMMA) {
                lemma_arguments(tokens, advance(tokens, argument.cursor), next, low);
            }
        }
    }
}

/// The ids of a list with one expression more.
proof fn lemma_list_ids_grows(found: Seq<ExpressionView>, added: ExpressionView)
    ensures
        list_ids(found.push(added), found.len() + 1) == list_ids(found, found.len())
            + expression_ids(added),
{
    lemma_list_ids_prefix(found, added, found.len());
}

proof fn lemma_list_ids_prefix(found: Seq<ExpressionView>, added: ExpressionView, count: nat)
    requires
        count <= found.len(),
    ensures
        list_ids(found.push(added), count) == list_ids(found, count),
    decreases count,
{
    if count > 0 {
        lemma_list_ids_prefix(found, added, (count - 1) as nat);
        assert(found.push(added)[count - 1] == found[count - 1]);
    }
}

proof fn lemma_finish_call(tokens: Seq<TokenView>, c: Cursor, callee: ExpressionView, low: nat)
    requires
        counted(tokens, c),
        low <= c.next_id,
        apart(expression_ids(callee), low, c.next_id),
    ensures
        numbers_on(
            tokens,
            c,
            low,
            finish_call(tokens, c, callee),
            expression_ids(finish_call(tokens, c, callee).result->Ok_0),
        ),
    decreases left(tokens, c), 23nat,
{
    let found = if check(tokens, c, TokenType::RIGHT_PAREN) {
        crate::syntax::done(Seq::<ExpressionView>::empty(), c)
    } else {
        lemma_arguments(tokens, c, Seq::<ExpressionView>::empty(), c.next_id);
        arguments(tokens, c, Seq::<ExpressionView>::empty())
    };
    if found.result is Ok {
        let all = found.result->Ok_0;
        lemma_apart_join(
            expression_ids(callee),
            list_ids(all, all.len()),
            low,
            c.next_id,
            found.cursor.next_id,
        );
    }
}

proof fn lemma_call_rest(
    tokens: Seq<TokenView>,
    c: Cursor,
    bound: nat,
    expr: ExpressionView,
    low: nat,
)
    requires
        counted(tokens, c),
        left(tokens, c) <= bound,
        low <= c.next_id,
        apart(expression_ids(expr), low, c.next_id),
    ensures
        numbers_on(
            tokens,
            c,
            low,
            call_rest(tokens, c, bound, expr),
            expression_ids(call_rest(tokens, c, bound, expr).result->Ok_0),
        ),
    decreases bound, 0nat,
{
    if check(tokens, c, TokenType::LEFT_PAREN) {
        let after = advance(tokens, c);
        lemma_finish_call(tokens, after, expr, low);
        let made = finish_call(tokens, after, expr);
        if made.result is Ok {
            lemma_call_rest(tokens, made.cursor, left(tokens, after), made.result->Ok_0, low);
        }
    } else if check(tokens, c, TokenType::DOT) {
        let after = advance(tokens, c);
        let name = consume(tokens, after, TokenType::IDENTIFIER, "Expect property name after '.'"@);
        if name.result is Ok {
            lemma_call_rest(
                tokens,
                name.cursor,
                left(tokens, after),
                ExpressionView::Get { object: Box::new(expr), name: name.result->Ok_0 },
                low,
            );
        }
    }
}

proof fn lemma_call(tokens: Seq<TokenView>, c: Cursor)
    requires
        counted(tokens, c),
    ensures
        numbers(tokens, c, call(tokens, c), expression_ids(call(tokens, c).result->Ok_0)),
        call(tokens, c).result is Ok ==> call(tokens, c).cursor.current > c.current,
    decreases left(tokens, c), 1nat,
{
    lemma_primary(tokens, c);
    let callee = primary(tokens, c);
    if callee.result is Ok {
        lemma_call_rest(tokens, callee.cursor, left(tokens, c), callee.result->Ok_0, c.next_id);
    }
}

proof fn lemma_unary(tokens: Seq<TokenView>, c: Cursor)
    requires
        counted(tokens, c),
    ensures
        numbers(tokens, c, unary(tokens, c), expression_ids(unary(tokens, c).result->Ok_0)),
        unary(tokens, c).result is Ok ==> unary(tokens, c).cursor.current > c.current,
    decreases left(tokens, c), 2nat,
{
    if check(tokens, c, TokenType::BANG) || check(tokens, c, TokenType::MINUS) {
        lemma_unary(tokens, advance(tokens, c));
    } else {
        lemma_call(tokens, c);
    }
}

proof fn lemma_binary(tokens: Seq<TokenView>, c: Cursor, level: nat)
    requires
        counted(tokens, c),
    ensures
        numbers(
            tokens,
            c,
            binary(tokens, c, level),
            expression_ids(binary(tokens, c, level).result->Ok_0),
        ),
        binary(tokens, c, level).result is Ok ==> binary(tokens, c, level).cursor.current
            > c.current,
    decreases left(tokens, c), 3 + 2 * level,
{
    if level == 0 {
        lemma_unary(tokens, c);
    } else {
        lemma_binary(tokens, c, (level - 1) as nat);
        let first = binary(tokens, c, (level - 1) as nat);
        if first.result is Ok {
            lemma_binary_rest(
                tokens,
                first.cursor,
                left(tokens, c),
                level,
                first.result->Ok_0,
                c.next_id,
            );
        }
    }
}

proof fn lemma_binary_rest(
    tokens: Seq<TokenView>,
    c: Cursor,
    bound: nat,
    level: nat,
    operand: ExpressionView,
    low: nat,
)
    requires
        counted(tokens, c),
        left(tokens, c) <= bound,
        low <= c.next_id,
        apart(expression_ids(operand), low, c.next_id),
    ensures
        numbers_on(
            tokens,
            c,
            low,
            binary_rest(tokens, c, bound, level, operand),
            expression_ids(binary_rest(tokens, c, bound, level, operand).result->Ok_0),
        ),
    decreases bound, 2 + 2 * level,
{
    if !(level == 0 || is_at_end(tokens, c) || !operator_at(level, peek(tokens, c).token_type)) {
        let after = advance(tokens, c);
        lemma_binary(tokens, after, (level - 1) as nat);
        let right = binary(tokens, after, (level - 1) as nat);
        if right.result is Ok {
            let both = crate::syntax::joined(level, operand, peek(tokens, c), right.result->Ok_0);
            lemma_apart_join(
                expression_ids(operand),
                expression_ids(right.result->Ok_0),
                low,
                c.next_id,
                right.cursor.next_id,
            );
            lemma_binary_rest(tokens, right.cursor, left(tokens, after), level, both, low);
        }
    }
}

proof fn lemma_assignment(
    tokens: Seq<TokenView>,
    c: Cursor,
    bound: nat,
    target: ExpressionView,
    low: nat,
)
    requires
        counted(tokens, c),
        left(tokens, c) <= bound,
        low <= c.next_id,
        apart(expression_ids(target), low, c.next_id),
    ensures
        numbers_on(
            tokens,
            c,
            low,
            assignment(tokens, c, bound, target),
            expression_ids(assignment(tokens, c, bound, target).result->Ok_0),
        ),
    decreases bound, 0nat,
{
    if check(tokens, c, TokenType::EQUAL) {
        let after = advance(tokens, c);
        lemma_expression(tokens, after);
        let value = expression(tokens, after);
        if value.result is Ok {
            let ids = expression_ids(value.result->Ok_0);
            match target {
                ExpressionView::Variable { id, name } => {
                    let last = value.cursor.next_id as usize;
                    lemma_apart_join(
                        ids,
                        seq![last],
                        c.next_id,
                        value.cursor.next_id,
                        value.cursor.next_id + 1,
                    );
                    assert(ids.push(last) =~= ids + seq![last]);
                    lemma_apart_widen(
                        ids.push(last),
                        c.next_id,
                        value.cursor.next_id + 1,
                        low,
                        value.cursor.next_id + 1,
                    );
                },
                ExpressionView::Get { object, name } => {
                    lemma_apart_join(
                        expression_ids(target),
                        ids,
                        low,
                        c.next_id,
                        value.cursor.next_id,
                    );
                },
                _ => {},
            }
        }
    }
}

/// The ids of an expression that the grammar functions make are all
/// different and are among the ids that were given out for it.
pub proof fn lemma_expression(tokens: Seq<TokenView>, c: Cursor)
    requires
        counted(tokens, c),
    ensures
        numbers(
            tokens,
            c,
            expression(tokens, c),
            expression_ids(expression(tokens, c).result->Ok_0),
        ),
        expression(tokens, c).result is Ok ==> expression(tokens, c).cursor.current > c.current,
    decreases left(tokens, c), 20nat,
{
    lemma_binary(tokens, c, 6);
    let target = binary(tokens, c, 6);
    if target.result is Ok {
        lemma_assignment(tokens, target.cursor, left(tokens, c), target.result->Ok_0, c.next_id);
    }
}

/// The ids of a statement that may be missing.
pub open spec fn optional_statement_ids(statement: Option<StatementView>) -> Seq<usize> {
    match statement {
        Some(statement) => statement_ids(statement),
        None => Seq::empty(),
    }
}

proof fn lemma_statements_ids_grows(found: Seq<StatementView>, added: StatementView)
    ensures
        statements_ids(found.push(added), found.len() + 1) == statements_ids(found, found.len())
            + statement_ids(added),
{
    lemma_statements_ids_prefix(found, added, found.len());
}

proof fn lemma_statements_ids_prefix(found: Seq<StatementView>, added: StatementView, count: nat)
    requires
        count <= found.len(),
    ensures
        statements_ids(found.push(added), count) == statements_ids(found, count),
    decreases count,
{
    if count > 0 {
        lemma_statements_ids_prefix(found, added, (count - 1) as nat);
        assert(found.push(added)[count - 1] == found[count - 1]);
    }
}

proof fn lemma_functions_ids_grows(found: Seq<FunctionView>, added: FunctionView)
    ensures
        functions_ids(found.push(added), found.len() + 1) == functions_ids(found, found.len())
            + statements_ids(added.body, added.body.len()),
{
    lemma_functions_ids_prefix(found, added, found.len());
}

proof fn lemma_functions_ids_prefix(found: Seq<FunctionView>, added: FunctionView, count: nat)
    requires
        count <= found.len(),
    ensures
        functions_ids(found.push(added), count) == functions_ids(found, count),
    decreases count,
{
    if count > 0 {
        lemma_functions_ids_prefix(found, added, (count - 1) as nat);
        assert(found.push(added)[count - 1] == found[count - 1]);
    }
}

/// Parameters take no ids.
proof fn lemma_parameters(tokens: Seq<TokenView>, c: Cursor, found: Seq<TokenView>)
    requires
        counted(tokens, c),
    ensures
        parameters(tokens, c, found).result is Ok ==> {
            let end = parameters(tokens, c, found).cursor;
            &&& counted(tokens, end)
            &&& end.current > c.current
            &&& end.next_id == c.next_id
        },
    decreases left(tokens, c),
{
    if found.len() < crate::syntax::MAX_ARITY {
        let param = consume(tokens, c, TokenType::IDENTIFIER, "Expect parameter name."@);
        if param.result is Ok && check(tokens, param.cursor, TokenType::COMMA) {
            lemma_parameters(
                tokens,
                advance(tokens, param.cursor),
                found.push(param.result->Ok_0),
            );
        }
    }
}

proof fn lemma_program_items(tokens: Seq<TokenView>, c: Cursor, found: Seq<StatementView>, low: nat)
    requires
        counted(tokens, c),
        low <= c.next_id,
        apart(statements_ids(found, found.len()), low, c.next_id),
    ensures
        numbers_on(
            tokens,
            c,
            low,
            program(tokens, c, found),
            statements_ids(
                program(tokens, c, found).result->Ok_0,
                program(tokens, c, found).result->Ok_0.len(),
            ),
        ),
    decreases left(tokens, c), 43nat,
{
    if !is_at_end(tokens, c) {
        lemma_declaration(tokens, c);
        let item = declaration(tokens, c);
        if item.result is Ok {
            lemma_statements_ids_grows(found, item.result->Ok_0);
            lemma_apart_join(
                statements_ids(found, found.len()),
                statement_ids(item.result->Ok_0),
                low,
                c.next_id,
                item.cursor.next_id,
            );
            lemma_program_items(tokens, item.cursor, found.push(item.result->Ok_0), low);
        }
    }
}

proof fn lemma_declaration(tokens: Seq<TokenView>, c: Cursor)
    requires
        counted(tokens, c),
    ensures
        numbers(tokens, c, declaration(tokens, c), statement_ids(declaration(tokens, c).result->Ok_0)),
        declaration(tokens, c).result is Ok ==> declaration(tokens, c).cursor.current > c.current,
    decreases left(tokens, c), 40nat,
{
    let after = advance(tokens, c);
    if check(tokens, c, TokenType::CLASS) {
        lemma_class_declaration(tokens, after);
    } else if check(tokens, c, TokenType::FUN) {
        lemma_function(tokens, after, "function"@);
    } else if check(tokens, c, TokenType::VAR) {
        lemma_variable(tokens, after);
    } else {
        lemma_statement(tokens, c);
    }
}

proof fn lemma_class_declaration(tokens: Seq<TokenView>, c: Cursor)
    requires
        counted(tokens, c),
    ensures
        numbers(
            tokens,
            c,
            class_declaration(tokens, c),
            statement_ids(class_declaration(tokens, c).result->Ok_0),
        ),
        class_declaration(tokens, c).result is Ok ==> class_declaration(tokens, c).cursor.current
            > c.current,
    decreases left(tokens, c), 35nat,
{
    let name = consume(tokens, c, TokenType::IDENTIFIER, "Expect class name."@);
    if name.result is Ok {
        let superclass: Parsed<Option<ExpressionView>> = if check(
            tokens,
            name.cursor,
            TokenType::LESS,
        ) {
            let parent = consume(
                tokens,
                advance(tokens, name.cursor),
                TokenType::IDENTIFIER,
                "Expect superclass name."@,
            );
            if parent.result is Err {
                crate::syntax::failed(parent)
            } else {
                crate::syntax::done(
                    Some(
                        ExpressionView::Variable {
                            id: parent.cursor.next_id as usize,
                            name: parent.result->Ok_0,
                        },
                    ),
                    numbered(parent.cursor),
                )
            }
        } else {
            crate::syntax::done(None, name.cursor)
        };
        if superclass.result is Ok {
            let brace = consume(
                tokens,
                superclass.cursor,
                TokenType::LEFT_BRACE,
                "Expect '{' before class body."@,
            );
            if brace.result is Ok {
                lemma_methods(tokens, brace.cursor, Seq::<FunctionView>::empty(), brace.cursor.next_id);
                let all = methods(tokens, brace.cursor, Seq::<FunctionView>::empty());
                if all.result is Ok {
                    lemma_apart_join(
                        optional_ids(superclass.result->Ok_0),
                        functions_ids(all.result->Ok_0, all.result->Ok_0.len()),
                        c.next_id,
                        brace.cursor.next_id,
                        all.cursor.next_id,
                    );
                }
            }
        }
    }
}

proof fn lemma_methods(tokens: Seq<TokenView>, c: Cursor, found: Seq<FunctionView>, low: nat)
    requires
        counted(tokens, c),
        low <= c.next_id,
        apart(functions_ids(found, found.len()), low, c.next_id),
    ensures
        numbers_on(
            tokens,
            c,
            low,
            methods(tokens, c, found),
            functions_ids(
                methods(tokens, c, found).result->Ok_0,
                methods(tokens, c, found).result->Ok_0.len(),
            ),
        ),
    decreases left(tokens, c), 34nat,
{
    if !(check(tokens, c, TokenType::RIGHT_BRACE) || is_at_end(tokens, c)) {
        lemma_function(tokens, c, "method"@);
        let method = function(tokens, c, "method"@);
        if method.result is Ok {
            lemma_functions_ids_grows(found, method.result->Ok_0);
            lemma_apart_join(
                functions_ids(found, found.len()),
                statements_ids(method.result->Ok_0.body, method.result->Ok_0.body.len()),
                low,
                c.next_id,
                method.cursor.next_id,
            );
            lemma_methods(tokens, method.cursor, found.push(method.result->Ok_0), low);
        }
    }
}

proof fn lemma_function(tokens: Seq<TokenView>, c: Cursor, kind: Seq<char>)
    requires
        counted(tokens, c),
    ensures
        numbers(
            tokens,
            c,
            function(tokens, c, kind),
            statements_ids(
                function(tokens, c, kind).result->Ok_0.body,
                function(tokens, c, kind).result->Ok_0.body.len(),
            ),
        ),
        function(tokens, c, kind).result is Ok ==> function(tokens, c, kind).cursor.current
            > c.current,
    decreases left(tokens, c), 33nat,
{
    let name = consume(tokens, c, TokenType::IDENTIFIER, crate::syntax::expect_name(kind));
    if name.result is Ok {
        let paren = consume(
            tokens,
            name.cursor,
            TokenType::LEFT_PAREN,
            crate::syntax::expect_paren(kind),
        );
        if paren.result is Ok {
            let params = if check(tokens, paren.cursor, TokenType::RIGHT_PAREN) {
                crate::syntax::done(Seq::<TokenView>::empty(), paren.cursor)
            } else {
                lemma_parameters(tokens, paren.cursor, Seq::<TokenView>::empty());
                parameters(tokens, paren.cursor, Seq::<TokenView>::empty())
            };
            if params.result is Ok {
                let close = consume(
                    tokens,
                    params.cursor,
                    TokenType::RIGHT_PAREN,
                    "Expect ')' after parameters."@,
                );
                if close.result is Ok {
                    let brace = consume(
                        tokens,
                        close.cursor,
                        TokenType::LEFT_BRACE,
                        crate::syntax::expect_body(kind),
                    );
                    if brace.result is Ok {
                        lemma_block(tokens, brace.cursor);
                    }
                }
            }
        }
    }
}

proof fn lemma_variable(tokens: Seq<TokenView>, c: Cursor)
    requires
        counted(tokens, c),
    ensures
        numbers(tokens, c, variable(tokens, c), statement_ids(variable(tokens, c).result->Ok_0)),
        variable(tokens, c).result is Ok ==> variable(tokens, c).cursor.current > c.current,
    decreases left(tokens, c), 30nat,
{
    let name = consume(tokens, c, TokenType::IDENTIFIER, "Expect variable name."@);
    if name.result is Ok && check(tokens, name.cursor, TokenType::EQUAL) {
        lemma_expression(tokens, advance(tokens, name.cursor));
    }
}

proof fn lemma_expression_statement(tokens: Seq<TokenView>, c: Cursor)
    requires
        counted(tokens, c),
    ensures
        numbers(
            tokens,
            c,
            expression_statement(tokens, c),
            statement_ids(expression_statement(tokens, c).result->Ok_0),
        ),
        expression_statement(tokens, c).result is Ok ==> expression_statement(
            tokens,
            c,
        ).cursor.current > c.current,
    decreases left(tokens, c), 30nat,
{
    lemma_expression(tokens, c);
}

proof fn lemma_statement(tokens: Seq<TokenView>, c: Cursor)
    requires
        counted(tokens, c),
    ensures
        numbers(tokens, c, statement(tokens, c), statement_ids(statement(tokens, c).result->Ok_0)),
        statement(tokens, c).result is Ok ==> statement(tokens, c).cursor.current > c.current,
    decreases left(tokens, c), 39nat,
{
    let after = advance(tokens, c);
    if check(tokens, c, TokenType::FOR) {
        lemma_for_statement(tokens, after);
    } else if check(tokens, c, TokenType::IF) {
        lemma_if_statement(tokens, after);
    } else if check(tokens, c, TokenType::PRINT) {
        lemma_expression(tokens, after);
    } else if check(tokens, c, TokenType::RETURN) {
        if !check(tokens, after, TokenType::SEMICOLON) {
            lemma_expression(tokens, after);
        }
    } else if check(tokens, c, TokenType::WHILE) {
        lemma_while_statement(tokens, after);
    } else if check(tokens, c, TokenType::LEFT_BRACE) {
        lemma_block(tokens, after);
    } else {
        lemma_expression_statement(tokens, c);
    }
}

proof fn lemma_block(tokens: Seq<TokenView>, c: Cursor)
    requires
        counted(tokens, c),
    ensures
        numbers(
            tokens,
            c,
            block(tokens, c),
            statements_ids(block(tokens, c).result->Ok_0, block(tokens, c).result->Ok_0.len()),
        ),
        block(tokens, c).result is Ok ==> block(tokens, c).cursor.current > c.current,
    decreases left(tokens, c), 42nat,
{
    lemma_block_items(tokens, c, Seq::<StatementView>::empty(), c.next_id);
}

proof fn lemma_block_items(tokens: Seq<TokenView>, c: Cursor, found: Seq<StatementView>, low: nat)
    requires
        counted(tokens, c),
        low <= c.next_id,
        apart(statements_ids(found, found.len()), low, c.next_id),
    ensures
        numbers_on(
            tokens,
            c,
            low,
            block_items(tokens, c, found),
            statements_ids(
                block_items(tokens, c, found).result->Ok_0,
                block_items(tokens, c, found).result->Ok_0.len(),
            ),
        ),
    decreases left(tokens, c), 41nat,
{
    if !(check(tokens, c, TokenType::RIGHT_BRACE) || is_at_end(tokens, c)) {
        lemma_declaration(tokens, c);
        let item = declaration(tokens, c);
        if item.result is Ok {
            lemma_statements_ids_grows(found, item.result->Ok_0);
            lemma_apart_join(
                statements_ids(found, found.len()),
                statement_ids(item.result->Ok_0),
                low,
                c.next_id,
                item.cursor.next_id,
            );
            lemma_block_items(tokens, item.cursor, found.push(item.result->Ok_0), low);
        }
    }
}

proof fn lemma_if_statement(tokens: Seq<TokenView>, c: Cursor)
    requires
        counted(tokens, c),
    ensures
        numbers(
            tokens,
            c,
            if_statement(tokens, c),
            statement_ids(if_statement(tokens, c).result->Ok_0),
        ),
        if_statement(tokens, c).result is Ok ==> if_statement(tokens, c).cursor.current > c.current,
    decreases left(tokens, c), 30nat,
{
    let paren = consume(tokens, c, TokenType::LEFT_PAREN, "Expect '(' after 'if'."@);
    if paren.result is Ok {
        lemma_expression(tokens, paren.cursor);
        let condition = expression(tokens, paren.cursor);
        if condition.result is Ok {
            let bound = left(tokens, c);
            let at = condition.cursor;
            let close = consume(tokens, at, TokenType::RIGHT_PAREN, "Expect ')' after if condition."@);
            if close.result is Ok {
                lemma_statement(tokens, close.cursor);
                let then_branch = statement(tokens, close.cursor);
                if then_branch.result is Ok {
                    lemma_apart_join(
                        expression_ids(condition.result->Ok_0),
                        statement_ids(then_branch.result->Ok_0),
                        c.next_id,
                        at.next_id,
                        then_branch.cursor.next_id,
                    );
                    let after = then_branch.cursor;
                    if check(tokens, after, TokenType::ELSE) {
                        lemma_statement(tokens, advance(tokens, after));
                        let otherwise = statement(tokens, advance(tokens, after));
                        if otherwise.result is Ok {
                            lemma_apart_join(
                                expression_ids(condition.result->Ok_0) + statement_ids(
                                    then_branch.result->Ok_0,
                                ),
                                statement_ids(otherwise.result->Ok_0),
                                c.next_id,
                                after.next_id,
                                otherwise.cursor.next_id,
                            );
                        }
                    } else {
                        assert(expression_ids(condition.result->Ok_0) + statement_ids(
                            then_branch.result->Ok_0,
                        ) + Seq::<usize>::empty() =~= expression_ids(condition.result->Ok_0)
                            + statement_ids(then_branch.result->Ok_0));
                    }
                }
            }
        }
    }
}

proof fn lemma_while_statement(tokens: Seq<TokenView>, c: Cursor)
    requires
        counted(tokens, c),
    ensures
        numbers(
            tokens,
            c,
            while_statement(tokens, c),
            statement_ids(while_statement(tokens, c).result->Ok_0),
        ),
        while_statement(tokens, c).result is Ok ==> while_statement(tokens, c).cursor.current
            > c.current,
    decreases left(tokens, c), 30nat,
{
    let paren = consume(tokens, c, TokenType::LEFT_PAREN, "Expect '(' after 'while'."@);
    if paren.result is Ok {
        lemma_expression(tokens, paren.cursor);
        let condition = expression(tokens, paren.cursor);
        if condition.result is Ok {
            let close = consume(
                tokens,
                condition.cursor,
                TokenType::RIGHT_PAREN,
                "Expect ')' after condition."@,
            );
            if close.result is Ok {
                lemma_statement(tokens, close.cursor);
                let body = statement(tokens, close.cursor);
                if body.result is Ok {
                    lemma_apart_join(
                        expression_ids(condition.result->Ok_0),
                        statement_ids(body.result->Ok_0),
                        c.next_id,
                        condition.cursor.next_id,
                        body.cursor.next_id,
                    );
                }
            }
        }
    }
}

/// The ids of the loop that a `for` stands for: those of its parts.
proof fn lemma_desugared_ids(
    initializer: Option<StatementView>,
    condition: ExpressionView,
    increment: Option<ExpressionView>,
    body: StatementView,
)
    ensures
        statement_ids(desugared(initializer, condition, increment, body))
            == optional_statement_ids(initializer) + expression_ids(condition) + (statement_ids(
            body,
        ) + optional_ids(increment)),
{
    reveal_with_fuel(statements_ids, 3);
    reveal_with_fuel(statement_ids, 4);
    let stepped = match increment {
        Some(increment) => StatementView::Block(seq![body, StatementView::Expression(increment)]),
        None => body,
    };
    assert(statement_ids(stepped) =~= statement_ids(body) + optional_ids(increment));
    let looped = StatementView::While { condition, body: Box::new(stepped) };
    assert(statement_ids(looped) =~= expression_ids(condition) + (statement_ids(body)
        + optional_ids(increment)));
    match initializer {
        Some(initializer) => {
            assert(statement_ids(StatementView::Block(seq![initializer, looped])) =~= statement_ids(
                initializer,
            ) + expression_ids(condition) + (statement_ids(body) + optional_ids(increment)));
        },
        None => {
            assert(statement_ids(looped) =~= Seq::<usize>::empty() + expression_ids(condition) + (
            statement_ids(body) + optional_ids(increment)));
        },
    }
}

proof fn lemma_for_statement(tokens: Seq<TokenView>, c: Cursor)
    requires
        counted(tokens, c),
    ensures
        numbers(
            tokens,
            c,
            for_statement(tokens, c),
            statement_ids(for_statement(tokens, c).result->Ok_0),
        ),
        for_statement(tokens, c).result is Ok ==> for_statement(tokens, c).cursor.current
            > c.current,
    decreases left(tokens, c), 30nat,
{
    let paren = consume(tokens, c, TokenType::LEFT_PAREN, "Expect '(' after 'for'."@);
    if paren.result is Ok {
        let start = paren.cursor;
        if check(tokens, start, TokenType::SEMICOLON) {
            lemma_for_condition(tokens, advance(tokens, start), left(tokens, c), None, c.next_id);
        } else {
            if check(tokens, start, TokenType::VAR) {
                lemma_variable(tokens, advance(tokens, start));
            } else {
                lemma_expression_statement(tokens, start);
            }
            let initializer = if check(tokens, start, TokenType::VAR) {
                variable(tokens, advance(tokens, start))
            } else {
                expression_statement(tokens, start)
            };
            if initializer.result is Ok {
                lemma_for_condition(
                    tokens,
                    initializer.cursor,
                    left(tokens, c),
                    Some(initializer.result->Ok_0),
                    c.next_id,
                );
            }
        }
    }
}

proof fn lemma_for_condition(
    tokens: Seq<TokenView>,
    c: Cursor,
    bound: nat,
    initializer: Option<StatementView>,
    low: nat,
)
    requires
        counted(tokens, c),
        left(tokens, c) < bound,
        low <= c.next_id,
        apart(optional_statement_ids(initializer), low, c.next_id),
    ensures
        numbers_on(
            tokens,
            c,
            low,
            for_condition(tokens, c, bound, initializer),
            statement_ids(for_condition(tokens, c, bound, initializer).result->Ok_0),
        ),
        for_condition(tokens, c, bound, initializer).result is Ok ==> for_condition(
            tokens,
            c,
            bound,
            initializer,
        ).cursor.current > c.current,
    decreases bound, 3nat,
{
    if check(tokens, c, TokenType::SEMICOLON) {
        let always = ExpressionView::Literal(crate::grammar::LiteralView::Boolean(true));
        assert(optional_statement_ids(initializer) + expression_ids(always)
            =~= optional_statement_ids(initializer));
        lemma_for_increment(tokens, c, bound, initializer, always, low);
    } else {
        lemma_expression(tokens, c);
        let condition = expression(tokens, c);
        if condition.result is Ok {
            lemma_apart_join(
                optional_statement_ids(initializer),
                expression_ids(condition.result->Ok_0),
                low,
                c.next_id,
                condition.cursor.next_id,
            );
            lemma_for_increment(
                tokens,
                condition.cursor,
                bound,
                initializer,
                condition.result->Ok_0,
                low,
            );
        }
    }
}

proof fn lemma_for_increment(
    tokens: Seq<TokenView>,
    c: Cursor,
    bound: nat,
    initializer: Option<StatementView>,
    condition: ExpressionView,
    low: nat,
)
    requires
        counted(tokens, c),
        left(tokens, c) < bound,
        low <= c.next_id,
        apart(optional_statement_ids(initializer) + expression_ids(condition), low, c.next_id),
    ensures
        numbers_on(
            tokens,
            c,
            low,
            for_increment(tokens, c, bound, initializer, condition),
            statement_ids(for_increment(tokens, c, bound, initializer, condition).result->Ok_0),
        ),
        for_increment(tokens, c, bound, initializer, condition).result is Ok ==> for_increment(
            tokens,
            c,
            bound,
            initializer,
            condition,
        ).cursor.current > c.current,
    decreases bound, 2nat,
{
    let semicolon = consume(tokens, c, TokenType::SEMICOLON, "Expect ';' after loop condition."@);
    if semicolon.result is Ok {
        if check(tokens, semicolon.cursor, TokenType::RIGHT_PAREN) {
            lemma_for_body(
                tokens,
                semicolon.cursor,
                bound,
                initializer,
                condition,
                None,
                low,
                c.next_id,
            );
        } else {
            lemma_expression(tokens, semicolon.cursor);
            let increment = expression(tokens, semicolon.cursor);
            if increment.result is Ok {
                lemma_for_body(
                    tokens,
                    increment.cursor,
                    bound,
                    initializer,
                    condition,
                    Some(increment.result->Ok_0),
                    low,
                    c.next_id,
                );
            }
        }
    }
}

proof fn lemma_for_body(
    tokens: Seq<TokenView>,
    c: Cursor,
    bound: nat,
    initializer: Option<StatementView>,
    condition: ExpressionView,
    increment: Option<ExpressionView>,
    low: nat,
    mid: nat,
)
    requires
        counted(tokens, c),
        left(tokens, c) < bound,
        low <= mid <= c.next_id,
        apart(optional_statement_ids(initializer) + expression_ids(condition), low, mid),
        apart(optional_ids(increment), mid, c.next_id),
    ensures
        numbers_on(
            tokens,
            c,
            low,
            for_body(tokens, c, bound, initializer, condition, increment),
            statement_ids(
                for_body(tokens, c, bound, initializer, condition, increment).result->Ok_0,
            ),
        ),
        for_body(tokens, c, bound, initializer, condition, increment).result is Ok ==> for_body(
            tokens,
            c,
            bound,
            initializer,
            condition,
            increment,
        ).cursor.current > c.current,
    decreases bound, 1nat,
{
    let paren = consume(tokens, c, TokenType::RIGHT_PAREN, "Expect ')' after for clauses."@);
    if paren.result is Ok {
        lemma_statement(tokens, paren.cursor);
        let body = statement(tokens, paren.cursor);
        if body.result is Ok {
            lemma_desugared_ids(initializer, condition, increment, body.result->Ok_0);
            lemma_apart_join(
                optional_ids(increment),
                statement_ids(body.result->Ok_0),
                mid,
                c.next_id,
                body.cursor.next_id,
            );
            lemma_apart_join(
                optional_statement_ids(initializer) + expression_ids(condition),
                statement_ids(body.result->Ok_0) + optional_ids(increment),
                low,
                mid,
                body.cursor.next_id,
            );
        }
    }
}

/// No two nodes of a parsed program have the same id: the ids of all the
/// nodes that the resolver may bind are different from one another, and
/// they are among the ids that the parser gave out for the program.
pub proof fn lemma_program(tokens: Seq<TokenView>, c: Cursor)
    requires
        counted(tokens, c),
    ensures
        ({
            let parsed = program(tokens, c, Seq::<StatementView>::empty());
            parsed.result matches Ok(statements) ==> apart(
                statements_ids(statements, statements.len()),
                c.next_id,
                parsed.cursor.next_id,
            )
        }),
{
    lemma_program_items(tokens, c, Seq::<StatementView>::empty(), c.next_id);
}

} // verus!
