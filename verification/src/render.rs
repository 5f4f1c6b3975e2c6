//! The printed forms of tokens and expressions.
//!
//! A printed form is a sequence of [`Piece`]s. Text is ready to print; a
//! number is left to the caller, who alone can format a double.

use vstd::prelude::*;
use vstd::string::StringExecFns;
use crate::grammar::{Expression, ExpressionView, Literal, LiteralView, Token, TokenType, TokenView};
use crate::scanner::{identifier_end, scan, Scanned};
use crate::syntax::{binary, expression, Cursor};

verus! {

/// A piece of output.
#[derive(Debug, PartialEq)]
pub enum Piece {
    Text(String),
    /// The double with these bits.
    Number(u64),
    /// The double nearest to this decimal numeral.
    Numeral(String),
}

/// The mathematical content of a [`Piece`].
pub enum PieceView {
    Text(Seq<char>),
    Number(u64),
    Numeral(Seq<char>),
}

impl View for Piece {
    type V = PieceView;

    open spec fn view(&self) -> PieceView {
        match self {
            Piece::Text(text) => PieceView::Text(text@),
            Piece::Number(bits) => PieceView::Number(*bits),
            Piece::Numeral(numeral) => PieceView::Numeral(numeral@),
        }
    }
}

/// The content of a sequence of pieces.
pub open spec fn pieces_view(pieces: Seq<Piece>) -> Seq<PieceView> {
    Seq::new(pieces.len(), |i: int| pieces[i]@)
}

/// A piece of text.
pub open spec fn text(text: Seq<char>) -> Seq<PieceView> {
    seq![PieceView::Text(text)]
}

/// The value form of a literal: a string is its text, without quotes.
pub open spec fn literal_form(literal: Literal) -> PieceView {
    match literal {
        Literal::Nil => PieceView::Text("nil"@),
        Literal::Boolean(b) => PieceView::Text(
            if b {
                "true"@
            } else {
                "false"@
            },
        ),
        Literal::String(s) => PieceView::Text(s@),
        Literal::Number(numeral) => PieceView::Numeral(numeral@),
    }
}

/// The form of a token in a token listing: its kind, its lexeme, and its
/// literal or `null`.
pub open spec fn token_form(token: Token) -> Seq<PieceView> {
    seq![
        PieceView::Text(token.token_type.spec_name() + " "@ + token.lexeme@ + " "@),
        match token.literal {
            Some(literal) => literal_form(literal),
            None => PieceView::Text("null"@),
        },
    ]
}

/// The parenthesised prefix form of an expression.
pub open spec fn expression_form(expr: Expression) -> Seq<PieceView>
    decreases expr,
{
    match expr {
        Expression::Assign { id, name, value } => text("(assign "@ + name.lexeme@ + " "@)
            + expression_form(*value) + text(")"@),
        Expression::Binary { left, op, right } => text("("@ + op.lexeme@ + " "@) + expression_form(
            *left,
        ) + text(" "@) + expression_form(*right) + text(")"@),
        Expression::Call { callee, paren_line, arguments } => text("(call "@) + expression_form(
            *callee,
        ) + text(" "@) + arguments_form(arguments@, 0) + text(")"@),
        Expression::Get { object, name } => text("(get "@) + expression_form(*object) + text(
            " "@ + name.lexeme@ + ")"@,
        ),
        Expression::Grouping(inner) => text("(group "@) + expression_form(*inner) + text(")"@),
        Expression::Literal(literal) => seq![literal_form(literal)],
        Expression::Logical { left, op, right } => text("("@ + op.lexeme@ + " "@)
            + expression_form(*left) + text(" "@) + expression_form(*right) + text(")"@),
        Expression::SetProperty { object, name, value } => text("(set "@) + expression_form(
            *object,
        ) + text(" "@ + name.lexeme@ + " "@) + expression_form(*value) + text(")"@),
        Expression::Super { id, keyword, method } => text("(super "@ + method.lexeme@ + ")"@),
        Expression::This { id, keyword } => text("this"@),
        Expression::Unary { op, right } => text("("@ + op.lexeme@ + " "@) + expression_form(*right)
            + text(")"@),
        Expression::Variable { id, name } => text("(var "@ + name.lexeme@ + ")"@),
    }
}

/// The forms of the arguments from `from` on, with `, ` between them.
pub open spec fn arguments_form(arguments: Seq<Expression>, from: nat) -> Seq<PieceView>
    decreases arguments, arguments.len() - from,
{
    if from >= arguments.len() {
        Seq::empty()
    } else if from == 0 {
        expression_form(arguments[from as int]) + arguments_form(arguments, from + 1)
    } else {
        text(", "@) + expression_form(arguments[from as int]) + arguments_form(arguments, from + 1)
    }
}

fn push_piece(out: &mut Vec<Piece>, piece: Piece)
    ensures
        pieces_view(final(out)@) == pieces_view(old(out)@).push(piece@),
{
    out.push(piece);
    assert(pieces_view(out@) =~= pieces_view(old(out)@).push(piece@));
}

fn push_text(out: &mut Vec<Piece>, content: String)
    ensures
        pieces_view(final(out)@) == pieces_view(old(out)@) + text(content@),
{
    push_piece(out, Piece::Text(content));
    assert(pieces_view(out@) =~= pieces_view(old(out)@) + text(content@));
}

/// `first`, then `second`, then `third`.
fn joined(first: &str, second: &str, third: &str) -> (all: String)
    ensures
        all@ == first@ + second@ + third@,
{
    let mut all = String::from_str(first);
    all.append(second);
    all.append(third);
    all
}

impl Literal {
    /// The value form of the literal.
    pub fn render(&self) -> (piece: Piece)
        ensures
            piece@ == literal_form(*self),
    {
        match self {
            Literal::Nil => Piece::Text(String::from_str("nil")),
            Literal::Boolean(b) => Piece::Text(
                if *b {
                    String::from_str("true")
                } else {
                    String::from_str("false")
                },
            ),
            Literal::String(s) => Piece::Text(s.clone()),
            Literal::Number(numeral) => Piece::Numeral(numeral.clone()),
        }
    }
}

impl Token {
    /// The form of the token in a token listing.
    pub fn render(&self) -> (pieces: Vec<Piece>)
        ensures
            pieces_view(pieces@) == token_form(*self),
    {
        let mut head = String::from_str(self.token_type.name());
        head.append(" ");
        head.append(self.lexeme.as_str());
        head.append(" ");
        let mut pieces: Vec<Piece> = Vec::new();
        pieces.push(Piece::Text(head));
        pieces.push(
            match &self.literal {
                Some(literal) => literal.render(),
                None => Piece::Text(String::from_str("null")),
            },
        );
        assert(pieces_view(pieces@) =~= token_form(*self));
        pieces
    }
}

impl Expression {
    /// The parenthesised prefix form of the expression.
    pub fn render(&self) -> (pieces: Vec<Piece>)
        ensures
            pieces_view(pieces@) == expression_form(*self),
    {
        let mut pieces: Vec<Piece> = Vec::new();
        assert(pieces_view(pieces@) =~= Seq::<PieceView>::empty());
        self.render_into(&mut pieces);
        assert(Seq::<PieceView>::empty() + expression_form(*self) =~= expression_form(*self));
        pieces
    }

    fn render_into(&self, out: &mut Vec<Piece>)
        ensures
            pieces_view(final(out)@) == pieces_view(old(out)@) + expression_form(*self),
        decreases self,
    {
        let ghost before = pieces_view(out@);
        match self {
            Expression::Assign { id, name, value } => {
                push_text(out, joined("(assign ", name.lexeme.as_str(), " "));
                value.render_into(out);
                push_text(out, String::from_str(")"));
            },
            Expression::Binary { left, op, right } => {
                push_text(out, joined("(", op.lexeme.as_str(), " "));
                left.render_into(out);
                push_text(out, String::from_str(" "));
                right.render_into(out);
                push_text(out, String::from_str(")"));
            },
            Expression::Call { callee, paren_line, arguments } => {
                push_text(out, String::from_str("(call "));
                callee.render_into(out);
                push_text(out, String::from_str(" "));
                let ghost start = pieces_view(out@);
                let mut i: usize = 0;
                while i < arguments.len()
                    invariant
                        i <= arguments.len(),
                        decreases_to!(self => arguments),
                        pieces_view(out@) + arguments_form(arguments@, i as nat) == start
                            + arguments_form(arguments@, 0),
                    decreases arguments.len() - i,
                {
                    let ghost done = pieces_view(out@);
                    if i > 0 {
                        push_text(out, String::from_str(", "));
                    }
                    arguments[i].render_into(out);
                    assert(pieces_view(out@) + arguments_form(arguments@, (i + 1) as nat) =~= done
                        + arguments_form(arguments@, i as nat));
                    i = i + 1;
                }
                assert(pieces_view(out@) =~= start + arguments_form(arguments@, 0));
                push_text(out, String::from_str(")"));
            },
            Expression::Get { object, name } => {
                push_text(out, String::from_str("(get "));
                object.render_into(out);
                push_text(out, joined(" ", name.lexeme.as_str(), ")"));
            },
            Expression::Grouping(inner) => {
                push_text(out, String::from_str("(group "));
                inner.render_into(out);
                push_text(out, String::from_str(")"));
            },
            Expression::Literal(literal) => {
                push_piece(out, literal.render());
            },
            Expression::Logical { left, op, right } => {
                push_text(out, joined("(", op.lexeme.as_str(), " "));
                left.render_into(out);
                push_text(out, String::from_str(" "));
                right.render_into(out);
                push_text(out, String::from_str(")"));
            },
            Expression::SetProperty { object, name, value } => {
                push_text(out, String::from_str("(set "));
                object.render_into(out);
                push_text(out, joined(" ", name.lexeme.as_str(), " "));
                value.render_into(out);
                push_text(out, String::from_str(")"));
            },
            Expression::Super { id, keyword, method } => {
                push_text(out, joined("(super ", method.lexeme.as_str(), ")"));
            },
            Expression::This { id, keyword } => {
                push_text(out, String::from_str("this"));
            },
            Expression::Unary { op, right } => {
                push_text(out, joined("(", op.lexeme.as_str(), " "));
                right.render_into(out);
                push_text(out, String::from_str(")"));
            },
            Expression::Variable { id, name } => {
                push_text(out, joined("(var ", name.lexeme.as_str(), ")"));
            },
        }
        assert(pieces_view(out@) =~= before + expression_form(*self));
    }
}

/// The tokens of a text that is one keyword.
proof fn lemma_keyword_alone(word: Seq<char>, kind: TokenType)
    requires
        2 < word.len() <= 5,
        forall|i: int| 0 <= i < word.len() ==> crate::scanner::is_letter(#[trigger] word[i]),
        crate::grammar::keyword_type(word) == kind,
    ensures
        scan(word).errors.len() == 0,
        scan(word).tokens == seq![
            TokenView { token_type: kind, lexeme: word, literal: None, line: 1 },
            TokenView { token_type: TokenType::EOF, lexeme: Seq::empty(), literal: None, line: 1 },
        ],
{
    reveal_with_fuel(identifier_end, 6);
    reveal_with_fuel(Scanned::scan_all, 3);
    let start = Scanned::start();
    assert(identifier_end(word, 1) == word.len());
    assert(word.subrange(0, word.len() as int) =~= word);
    let first = start.scan_token(word);
    assert(first == start.identifier(word));
    assert(first.current == word.len());
    assert(start.scan_all(word) == first);
    assert(scan(word).tokens =~= seq![
        TokenView { token_type: kind, lexeme: word, literal: None, line: 1 },
        TokenView { token_type: TokenType::EOF, lexeme: Seq::empty(), literal: None, line: 1 },
    ]);
}

/// An expression that is one token which `primary` reads as the literal
/// `literal`.
proof fn lemma_literal_alone(tokens: Seq<TokenView>, literal: LiteralView)
    requires
        tokens.len() == 2,
        tokens[1].token_type == TokenType::EOF,
        crate::syntax::primary(tokens, Cursor { current: 0, next_id: 0 }) == crate::syntax::done(
            ExpressionView::Literal(literal),
            Cursor { current: 1, next_id: 0 },
        ),
    ensures
        expression(tokens, Cursor { current: 0, next_id: 0 }) == crate::syntax::done(
            ExpressionView::Literal(literal),
            Cursor { current: 1, next_id: 0 },
        ),
{
    reveal_with_fuel(binary, 8);
    let start = Cursor { current: 0, next_id: 0 };
    let end = Cursor { current: 1, next_id: 0 };
    let found = crate::syntax::done(ExpressionView::Literal(literal), end);
    assert(crate::syntax::is_at_end(tokens, end));
    assert(crate::syntax::call(tokens, start) == found);
    assert(crate::syntax::unary(tokens, start) == found);
    assert(binary(tokens, start, 0) == found);
    assert(binary(tokens, start, 1) == found);
    assert(binary(tokens, start, 2) == found);
    assert(binary(tokens, start, 3) == found);
    assert(binary(tokens, start, 4) == found);
    assert(binary(tokens, start, 5) == found);
    assert(binary(tokens, start, 6) == found);
}

/// The literals `nil`, `true` and `false` read back from their printed
/// form: scanning the form finds no error, and parsing its tokens gives
/// the literal again.
///
/// No other expression does. The printed form of an operator is a prefix
/// form, which the grammar has not; a string is printed without its
/// quotes; and a node that the resolver may bind gets its id and its line
/// from the text it was read from.
pub proof fn lemma_plain_literals_read_back(literal: Literal)
    requires
        literal is Nil || literal is Boolean,
    ensures
        literal_form(literal) is Text,
        scan(literal_form(literal)->Text_0).errors.len() == 0,
        expression(
            scan(literal_form(literal)->Text_0).tokens,
            Cursor { current: 0, next_id: 0 },
        ).result == Ok::<ExpressionView, crate::error::LoxErrorView>(
            ExpressionView::Literal(literal@),
        ),
{
    reveal_strlit("and");
    reveal_strlit("class");
    reveal_strlit("else");
    reveal_strlit("false");
    reveal_strlit("for");
    reveal_strlit("fun");
    reveal_strlit("if");
    reveal_strlit("nil");
    reveal_strlit("or");
    reveal_strlit("print");
    reveal_strlit("return");
    reveal_strlit("super");
    reveal_strlit("this");
    reveal_strlit("true");
    let word = literal_form(literal)->Text_0;
    let kind = match literal {
        Literal::Nil => TokenType::NIL,
        Literal::Boolean(b) => if b {
            TokenType::TRUE
        } else {
            TokenType::FALSE
        },
        _ => TokenType::IDENTIFIER,
    };
    assert(crate::grammar::keyword_type(word) == kind);
    lemma_keyword_alone(word, kind);
    lemma_literal_alone(scan(word).tokens, literal@);
}

} // verus!
