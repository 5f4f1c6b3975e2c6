//! The scanner: from source text to tokens.

use vstd::prelude::*;
use vstd::std_specs::iter::IteratorSpec;
use vstd::string::StringExecFns;
use crate::grammar::{keyword_type, tokens_view, Literal, LiteralView, Token, TokenType, TokenView};
use crate::strings::{decimal, push_decimal};
use crate::syntax::{literal_fits, well_formed};

verus! {

/// Whether the character is alphabetic, as Unicode has it.
pub uninterp spec fn alphabetic(c: char) -> bool;

/// Whether the character is alphabetic or numeric, as Unicode has it.
pub uninterp spec fn alphanumeric(c: char) -> bool;

/// `char::is_alphabetic` tells whether the character has the Unicode
/// property `Alphabetic`; the answer depends on the character alone.
pub assume_specification[ char::is_alphabetic ](c: char) -> (r: bool)
    ensures
        r == alphabetic(c),
;

/// `char::is_alphanumeric` tells whether the character is alphabetic or
/// numeric in Unicode; the answer depends on the character alone.
pub assume_specification[ char::is_alphanumeric ](c: char) -> (r: bool)
    ensures
        r == alphanumeric(c),
;

/// The state of a scan, and in the end its result.
pub struct Scanned {
    pub tokens: Seq<TokenView>,
    /// The lines that report the errors, in the order they were found.
    pub errors: Seq<Seq<char>>,
    /// The number of characters read.
    pub current: nat,
    /// The line that the scan is in, counted from one.
    pub line: nat,
}

/// An ASCII digit.
pub open spec fn is_digit(c: char) -> bool {
    '0' <= c && c <= '9'
}

/// An ASCII letter.
pub open spec fn is_letter(c: char) -> bool {
    ('a' <= c && c <= 'z') || ('A' <= c && c <= 'Z')
}

/// A character that may start an identifier: a letter, of ASCII or of any
/// other script, or an underscore.
pub open spec fn starts_identifier(c: char) -> bool {
    is_letter(c) || alphabetic(c) || c == '_'
}

/// A character that may go on an identifier: a letter or a digit, of ASCII
/// or of any other script, or an underscore.
pub open spec fn continues_identifier(c: char) -> bool {
    is_letter(c) || is_digit(c) || alphanumeric(c) || c == '_'
}

/// The character at `at`, or NUL behind the end of the text.
pub open spec fn char_at(source: Seq<char>, at: nat) -> char {
    if at < source.len() {
        source[at as int]
    } else {
        '\0'
    }
}

/// The end of the digits that start at `from`.
pub open spec fn digits_end(source: Seq<char>, from: nat) -> nat
    decreases source.len() - from,
{
    if from < source.len() && is_digit(source[from as int]) {
        digits_end(source, from + 1)
    } else {
        from
    }
}

/// The end of the identifier characters that start at `from`.
pub open spec fn identifier_end(source: Seq<char>, from: nat) -> nat
    decreases source.len() - from,
{
    if from < source.len() && continues_identifier(source[from as int]) {
        identifier_end(source, from + 1)
    } else {
        from
    }
}

/// The place of the first `stop` from `from` on, or the end of the text.
pub open spec fn find(source: Seq<char>, from: nat, stop: char) -> nat
    decreases source.len() - from,
{
    if from < source.len() && source[from as int] != stop {
        find(source, from + 1, stop)
    } else {
        from
    }
}

/// The number of line ends between `from` and `to`.
pub open spec fn newlines(source: Seq<char>, from: nat, to: nat) -> nat
    decreases to - from,
{
    if from < to && to <= source.len() {
        newlines(source, from, (to - 1) as nat) + if source[to - 1] == '\n' {
            1nat
        } else {
            0nat
        }
    } else {
        0
    }
}

/// The end of the number that starts at `from`: digits, and a fraction if
/// a digit follows the point.
pub open spec fn number_end(source: Seq<char>, from: nat) -> nat {
    let whole = digits_end(source, from);
    if char_at(source, whole) == '.' && is_digit(char_at(source, whole + 1)) {
        digits_end(source, whole + 1)
    } else {
        whole
    }
}

/// The line that reports the error `message` found in the line `line`.
pub open spec fn report(line: nat, message: Seq<char>) -> Seq<char> {
    "[line "@ + decimal(line) + "] Error: "@ + message
}

impl Scanned {
    /// The scan before anything is read.
    pub open spec fn start() -> Scanned {
        Scanned { tokens: Seq::empty(), errors: Seq::empty(), current: 0, line: 1 }
    }

    /// The token of the kind `kind` whose lexeme runs from where the scan
    /// stands to `end`.
    pub open spec fn token(
        self,
        source: Seq<char>,
        kind: TokenType,
        end: nat,
        literal: Option<LiteralView>,
        line: nat,
    ) -> Scanned {
        Scanned {
            tokens: self.tokens.push(
                TokenView {
                    token_type: kind,
                    lexeme: source.subrange(self.current as int, end as int),
                    literal,
                    line: line as usize,
                },
            ),
            current: end,
            line,
            ..self
        }
    }

    /// A token of one character, or of two if `=` follows.
    pub open spec fn comparison(self, source: Seq<char>, single: TokenType, double: TokenType) -> Scanned {
        if char_at(source, self.current + 1) == '=' {
            self.token(source, double, self.current + 2, None, self.line)
        } else {
            self.token(source, single, self.current + 1, None, self.line)
        }
    }

    /// A string: up to the closing quote, over line ends. The literal is
    /// the text between the quotes. A string that the text ends in is an
    /// error.
    pub open spec fn string(self, source: Seq<char>) -> Scanned {
        let close = find(source, self.current + 1, '"');
        let line = self.line + newlines(source, self.current + 1, close);
        if close >= source.len() {
            Scanned {
                errors: self.errors.push(report(line, "Unterminated string."@)),
                current: close,
                line,
                ..self
            }
        } else {
            self.token(
                source,
                TokenType::STRING,
                close + 1,
                Some(LiteralView::String(source.subrange(self.current + 1 as int, close as int))),
                line,
            )
        }
    }

    /// A number; the literal is its numeral.
    pub open spec fn number(self, source: Seq<char>) -> Scanned {
        let end = number_end(source, self.current + 1);
        self.token(
            source,
            TokenType::NUMBER,
            end,
            Some(LiteralView::Number(source.subrange(self.current as int, end as int))),
            self.line,
        )
    }

    /// An identifier or a keyword.
    pub open spec fn identifier(self, source: Seq<char>) -> Scanned {
        let end = identifier_end(source, self.current + 1);
        self.token(
            source,
            keyword_type(source.subrange(self.current as int, end as int)),
            end,
            None,
            self.line,
        )
    }

    /// The scan after the next lexeme; there is a character left to read.
    pub open spec fn scan_token(self, source: Seq<char>) -> Scanned {
        let c = source[self.current as int];
        let next = self.current + 1;
        if c == '(' {
            self.token(source, TokenType::LEFT_PAREN, next, None, self.line)
        } else if c == ')' {
            self.token(source, TokenType::RIGHT_PAREN, next, None, self.line)
        } else if c == '{' {
            self.token(source, TokenType::LEFT_BRACE, next, None, self.line)
        } else if c == '}' {
            self.token(source, TokenType::RIGHT_BRACE, next, None, self.line)
        } else if c == ',' {
            self.token(source, TokenType::COMMA, next, None, self.line)
        } else if c == '.' {
            self.token(source, TokenType::DOT, next, None, self.line)
        } else if c == '-' {
            self.token(source, TokenType::MINUS, next, None, self.line)
        } else if c == '+' {
            self.token(source, TokenType::PLUS, next, None, self.line)
        } else if c == ';' {
            self.token(source, TokenType::SEMICOLON, next, None, self.line)
        } else if c == '*' {
            self.token(source, TokenType::STAR, next, None, self.line)
        } else if c == '=' {
            self.comparison(source, TokenType::EQUAL, TokenType::EQUAL_EQUAL)
        } else if c == '!' {
            self.comparison(source, TokenType::BANG, TokenType::BANG_EQUAL)
        } else if c == '<' {
            self.comparison(source, TokenType::LESS, TokenType::LESS_EQUAL)
        } else if c == '>' {
            self.comparison(source, TokenType::GREATER, TokenType::GREATER_EQUAL)
        } else if c == '/' {
            if char_at(source, next) == '/' {
                Scanned { current: find(source, next + 1, '\n'), ..self }
            } else {
                self.token(source, TokenType::SLASH, next, None, self.line)
            }
        } else if c == ' ' || c == '\r' || c == '\t' {
            Scanned { current: next, ..self }
        } else if c == '\n' {
            Scanned { current: next, line: self.line + 1, ..self }
        } else if c == '"' {
            self.string(source)
        } else if is_digit(c) {
            self.number(source)
        } else if starts_identifier(c) {
            self.identifier(source)
        } else {
            Scanned {
                errors: self.errors.push(
                    report(self.line, "Unexpected character: "@.push(c)),
                ),
                current: next,
                ..self
            }
        }
    }

    /// The scan of all that is left of the text. Every lexeme takes at least
    /// one character and ends within the text, so the scan goes on to the end.
    pub open spec fn scan_all(self, source: Seq<char>) -> Scanned
        decreases source.len() - self.current,
    {
        if self.current >= source.len() {
            self
        } else {
            let after = self.scan_token(source);
            if after.current <= self.current || after.current > source.len() {
                self
            } else {
                after.scan_all(source)
            }
        }
    }

    /// The scan with the `EOF` token that ends every token sequence.
    pub open spec fn finish(self) -> Scanned {
        Scanned {
            tokens: self.tokens.push(
                TokenView {
                    token_type: TokenType::EOF,
                    lexeme: Seq::empty(),
                    literal: None,
                    line: self.line as usize,
                },
            ),
            ..self
        }
    }
}

/// The tokens of a text, and the errors found in it.
pub open spec fn scan(source: Seq<char>) -> Scanned {
    Scanned::start().scan_all(source).finish()
}

/// One lexeme adds tokens of lexemes only.
proof fn lemma_scan_token_keeps_lexemes(source: Seq<char>, state: Scanned)
    requires
        lexemes_only(state.tokens),
        state.current < source.len(),
    ensures
        lexemes_only(state.scan_token(source).tokens),
{
    let after = state.scan_token(source);
    assert forall|i: int| 0 <= i < after.tokens.len() implies (#[trigger] after.tokens[i]).token_type
        != TokenType::EOF && literal_fits(after.tokens[i]) by {
        if i < state.tokens.len() {
            assert(after.tokens[i] == state.tokens[i]);
        }
    }
}

proof fn lemma_scan_all_keeps_lexemes(source: Seq<char>, state: Scanned)
    requires
        lexemes_only(state.tokens),
    ensures
        lexemes_only(state.scan_all(source).tokens),
    decreases source.len() - state.current,
{
    if state.current < source.len() {
        let after = state.scan_token(source);
        lemma_scan_token_keeps_lexemes(source, state);
        if !(after.current <= state.current || after.current > source.len()) {
            lemma_scan_all_keeps_lexemes(source, after);
        }
    }
}

/// The tokens of any text are followed by exactly one `EOF` token, and a
/// parser can read them.
pub proof fn lemma_scan_ends_in_its_only_eof(source: Seq<char>)
    ensures
        well_formed(scan(source).tokens),
        forall|i: int|
            0 <= i < scan(source).tokens.len() ==> ((#[trigger] scan(source).tokens[i]).token_type
                == TokenType::EOF <==> i == scan(source).tokens.len() - 1),
{
    let scanned = Scanned::start().scan_all(source);
    lemma_scan_all_keeps_lexemes(source, Scanned::start());
    let tokens = scan(source).tokens;
    assert forall|i: int| 0 <= i < tokens.len() implies literal_fits(#[trigger] tokens[i]) by {
        if i < scanned.tokens.len() {
            assert(tokens[i] == scanned.tokens[i]);
        }
    }
    assert forall|i: int| 0 <= i < tokens.len() implies ((#[trigger] tokens[i]).token_type
        == TokenType::EOF <==> i == tokens.len() - 1) by {
        if i < scanned.tokens.len() {
            assert(tokens[i] == scanned.tokens[i]);
        }
    }
}

/// The content of a sequence of texts.
pub open spec fn texts_view(texts: Seq<String>) -> Seq<Seq<char>> {
    Seq::new(texts.len(), |i: int| texts[i]@)
}

/// Every `NUMBER` and `STRING` token carries its literal, and no token is
/// `EOF`.
pub open spec fn lexemes_only(tokens: Seq<TokenView>) -> bool {
    forall|i: int|
        0 <= i < tokens.len() ==> (#[trigger] tokens[i]).token_type != TokenType::EOF
            && literal_fits(tokens[i])
}

/// The characters of `text`, in order.
pub fn characters(text: &str) -> (chars: Vec<char>)
    ensures
        chars@ == text@,
{
    let mut chars: Vec<char> = Vec::new();
    let mut rest = text.chars();
    loop
        invariant
            chars@ + rest.remaining() == text@,
            rest.decrease() is Some,
        ensures
            chars@ == text@,
        decreases rest.decrease()->0,
    {
        match rest.next() {
            Some(c) => {
                chars.push(c);
            },
            None => {
                break ;
            },
        }
    }
    chars
}

/// A scanner over a source text.
pub struct Scanner {
    source: Vec<char>,
    tokens: Vec<Token>,
    errors: Vec<String>,
    start: usize,
    current: usize,
    line: usize,
}

impl Scanner {
    /// The text that the scanner reads.
    pub closed spec fn source(&self) -> Seq<char> {
        self.source@
    }

    /// What the scanner has made of the text so far.
    pub closed spec fn state(&self) -> Scanned {
        Scanned {
            tokens: tokens_view(self.tokens@),
            errors: texts_view(self.errors@),
            current: self.current as nat,
            line: self.line as nat,
        }
    }

    /// The scanner stands within its text, has counted no more lines than
    /// it has read characters, and has made tokens of lexemes only.
    pub closed spec fn wf(&self) -> bool {
        &&& self.source@.len() < usize::MAX
        &&& self.current <= self.source@.len()
        &&& 1 <= self.line <= self.current + 1
        &&& lexemes_only(tokens_view(self.tokens@))
    }

    /// A scanner at the start of `input`.
    pub fn new(input: &str) -> (scanner: Self)
        requires
            input@.len() < usize::MAX,
        ensures
            scanner.wf(),
            scanner.source() == input@,
            scanner.state() == Scanned::start(),
    {
        let scanner = Scanner {
            source: characters(input),
            tokens: Vec::new(),
            errors: Vec::new(),
            start: 0,
            current: 0,
            line: 1,
        };
        assert(scanner.state().tokens =~= Scanned::start().tokens);
        assert(scanner.state().errors =~= Scanned::start().errors);
        scanner
    }

    /// Whether the scan has found an error.
    pub fn error(&self) -> (found: bool)
        ensures
            found == (self.state().errors.len() > 0),
    {
        self.errors.len() > 0
    }

    /// The lines that report the errors found so far.
    pub fn errors(&self) -> (errors: &Vec<String>)
        ensures
            texts_view(errors@) == self.state().errors,
    {
        &self.errors
    }

    fn is_at_end(&self) -> (at_end: bool)
        ensures
            at_end == (self.current >= self.source@.len()),
    {
        self.current >= self.source.len()
    }

    fn peek(&self) -> (c: char)
        ensures
            c == char_at(self.source@, self.current as nat),
    {
        if self.is_at_end() {
            '\0'
        } else {
            self.source[self.current]
        }
    }

    fn peek_next(&self) -> (c: char)
        requires
            self.current < usize::MAX,
        ensures
            c == char_at(self.source@, (self.current + 1) as nat),
    {
        if self.current + 1 >= self.source.len() {
            '\0'
        } else {
            self.source[self.current + 1]
        }
    }

    fn is_digit(c: char) -> (digit: bool)
        ensures
            digit == is_digit(c),
    {
        '0' <= c && c <= '9'
    }

    fn is_letter(c: char) -> (letter: bool)
        ensures
            letter == is_letter(c),
    {
        ('a' <= c && c <= 'z') || ('A' <= c && c <= 'Z')
    }

    fn is_identifier_char(c: char) -> (found: bool)
        ensures
            found == continues_identifier(c),
    {
        Scanner::is_letter(c) || Scanner::is_digit(c) || c.is_alphanumeric() || c == '_'
    }

    /// The text from `start` to `end`.
    fn substr(&self, start: usize, end: usize) -> (text: String)
        requires
            start <= end <= self.source@.len(),
        ensures
            text@ == self.source@.subrange(start as int, end as int),
    {
        let mut text = String::new();
        let mut at: usize = start;
        while at < end
            invariant
                start <= at <= end <= self.source@.len(),
                text@ == self.source@.subrange(start as int, at as int),
            decreases end - at,
        {
            text.push(self.source[at]);
            at = at + 1;
            assert(text@ =~= self.source@.subrange(start as int, at as int));
        }
        text
    }

    fn add_token(&mut self, token_type: TokenType)
        requires
            old(self).wf(),
            old(self).start <= old(self).current,
            token_type != TokenType::EOF && token_type != TokenType::NUMBER && token_type
                != TokenType::STRING,
        ensures
            final(self).wf(),
            final(self).source@ == old(self).source@,
            final(self).state() == (Scanned {
                current: old(self).start as nat,
                ..old(self).state()
            }).token(
                old(self).source@,
                token_type,
                old(self).current as nat,
                None,
                old(self).line as nat,
            ),
    {
        self.add_token_with_literal(token_type, None);
    }

    fn add_token_with_literal(&mut self, token_type: TokenType, literal: Option<Literal>)
        requires
            old(self).wf(),
            old(self).start <= old(self).current,
            token_type != TokenType::EOF,
            token_type == TokenType::NUMBER ==> (literal is Some && literal->Some_0 is Number),
            token_type == TokenType::STRING ==> (literal is Some && literal->Some_0 is String),
        ensures
            final(self).wf(),
            final(self).source@ == old(self).source@,
            final(self).state() == (Scanned {
                current: old(self).start as nat,
                ..old(self).state()
            }).token(
                old(self).source@,
                token_type,
                old(self).current as nat,
                match literal {
                    Some(literal) => Some(literal@),
                    None => None,
                },
                old(self).line as nat,
            ),
    {
        let token = Token {
            token_type,
            lexeme: self.substr(self.start, self.current),
            literal,
            line: self.line,
        };
        let ghost before = tokens_view(self.tokens@);
        self.tokens.push(token);
        assert(tokens_view(self.tokens@) =~= before.push(token@));
    }

    fn report(&mut self, message: &str)
        requires
            old(self).wf(),
        ensures
            final(self).wf(),
            final(self).source@ == old(self).source@,
            final(self).start == old(self).start,
            final(self).state() == (Scanned {
                errors: old(self).state().errors.push(report(old(self).line as nat, message@)),
                ..old(self).state()
            }),
    {
        let mut line = String::from_str("[line ");
        push_decimal(&mut line, self.line);
        line.append("] Error: ");
        line.append(message);
        let ghost before = texts_view(self.errors@);
        self.errors.push(line);
        assert(texts_view(self.errors@) =~= before.push(line@));
    }

    fn handle_comparison(&mut self, single: TokenType, double: TokenType)
        requires
            old(self).wf(),
            old(self).start < old(self).source@.len(),
            old(self).current == old(self).start + 1,
            single != TokenType::EOF && single != TokenType::NUMBER && single != TokenType::STRING,
            double != TokenType::EOF && double != TokenType::NUMBER && double != TokenType::STRING,
        ensures
            final(self).wf(),
            final(self).current >= old(self).current,
            final(self).source@ == old(self).source@,
            final(self).state() == (Scanned {
                current: old(self).start as nat,
                ..old(self).state()
            }).comparison(old(self).source@, single, double),
    {
        if self.peek() == '=' && !self.is_at_end() {
            self.current = self.current + 1;
            self.add_token(double);
        } else {
            self.add_token(single);
        }
    }

    fn handle_slash(&mut self)
        requires
            old(self).wf(),
            old(self).start < old(self).source@.len(),
            old(self).current == old(self).start + 1,
        ensures
            final(self).wf(),
            final(self).current >= old(self).current,
            final(self).source@ == old(self).source@,
            final(self).state() == if char_at(old(self).source@, old(self).current as nat) == '/' {
                Scanned {
                    current: find(old(self).source@, (old(self).current + 1) as nat, '\n'),
                    ..old(self).state()
                }
            } else {
                (Scanned { current: old(self).start as nat, ..old(self).state() }).token(
                    old(self).source@,
                    TokenType::SLASH,
                    old(self).current as nat,
                    None,
                    old(self).line as nat,
                )
            },
    {
        if self.peek() == '/' && !self.is_at_end() {
            self.current = self.current + 1;
            self.advance_end_of_line();
        } else {
            self.add_token(TokenType::SLASH);
        }
    }

    fn advance_end_of_line(&mut self)
        requires
            old(self).wf(),
        ensures
            final(self).wf(),
            final(self).current >= old(self).current,
            final(self).source@ == old(self).source@,
            final(self).state() == (Scanned {
                current: find(old(self).source@, old(self).current as nat, '\n'),
                ..old(self).state()
            }),
    {
        while self.peek() != '\n' && !self.is_at_end()
            invariant
                self.wf(),
                self.source@ == old(self).source@,
                self.tokens == old(self).tokens,
                self.errors == old(self).errors,
                self.line == old(self).line,
                old(self).current <= self.current,
                find(self.source@, self.current as nat, '\n') == find(
                    old(self).source@,
                    old(self).current as nat,
                    '\n',
                ),
            decreases self.source@.len() - self.current,
        {
            self.current = self.current + 1;
        }
    }

    fn handle_string(&mut self)
        requires
            old(self).wf(),
            old(self).start < old(self).source@.len(),
            old(self).current == old(self).start + 1,
        ensures
            final(self).wf(),
            final(self).current >= old(self).current,
            final(self).source@ == old(self).source@,
            final(self).state() == (Scanned {
                current: old(self).start as nat,
                ..old(self).state()
            }).string(old(self).source@),
    {
        while self.peek() != '"' && !self.is_at_end()
            invariant
                self.wf(),
                self.source@ == old(self).source@,
                self.tokens == old(self).tokens,
                self.errors == old(self).errors,
                self.start == old(self).start,
                old(self).current <= self.current,
                self.line == old(self).line + newlines(
                    self.source@,
                    old(self).current as nat,
                    self.current as nat,
                ),
                self.line <= old(self).line + (self.current - old(self).current),
                find(self.source@, self.current as nat, '"') == find(
                    old(self).source@,
                    old(self).current as nat,
                    '"',
                ),
            decreases self.source@.len() - self.current,
        {
            if self.peek() == '\n' {
                self.line = self.line + 1;
            }
            self.current = self.current + 1;
        }
        if self.is_at_end() {
            self.report("Unterminated string.");
            return ;
        }
        self.current = self.current + 1;
        let literal = self.substr(self.start + 1, self.current - 1);
        self.add_token_with_literal(TokenType::STRING, Some(Literal::String(literal)));
    }

    fn skip_digits(&mut self)
        requires
            old(self).wf(),
        ensures
            final(self).wf(),
            final(self).source@ == old(self).source@,
            final(self).tokens == old(self).tokens,
            final(self).errors == old(self).errors,
            final(self).line == old(self).line,
            final(self).start == old(self).start,
            final(self).current >= old(self).current,
            final(self).current == digits_end(old(self).source@, old(self).current as nat),
    {
        while Scanner::is_digit(self.peek())
            invariant
                self.wf(),
                self.source@ == old(self).source@,
                self.tokens == old(self).tokens,
                self.errors == old(self).errors,
                self.line == old(self).line,
                self.start == old(self).start,
                old(self).current <= self.current,
                digits_end(self.source@, self.current as nat) == digits_end(
                    old(self).source@,
                    old(self).current as nat,
                ),
            decreases self.source@.len() - self.current,
        {
            self.current = self.current + 1;
        }
    }

    fn handle_number(&mut self)
        requires
            old(self).wf(),
            old(self).start < old(self).source@.len(),
            old(self).current == old(self).start + 1,
        ensures
            final(self).wf(),
            final(self).current >= old(self).current,
            final(self).source@ == old(self).source@,
            final(self).state() == (Scanned {
                current: old(self).start as nat,
                ..old(self).state()
            }).number(old(self).source@),
    {
        self.skip_digits();
        if self.peek() == '.' && Scanner::is_digit(self.peek_next()) {
            self.current = self.current + 1;
            self.skip_digits();
        }
        let numeral = self.substr(self.start, self.current);
        self.add_token_with_literal(TokenType::NUMBER, Some(Literal::Number(numeral)));
    }

    fn handle_identifier(&mut self)
        requires
            old(self).wf(),
            old(self).start < old(self).source@.len(),
            old(self).current == old(self).start + 1,
        ensures
            final(self).wf(),
            final(self).current >= old(self).current,
            final(self).source@ == old(self).source@,
            final(self).state() == (Scanned {
                current: old(self).start as nat,
                ..old(self).state()
            }).identifier(old(self).source@),
    {
        while Scanner::is_identifier_char(self.peek()) && !self.is_at_end()
            invariant
                self.wf(),
                self.source@ == old(self).source@,
                self.tokens == old(self).tokens,
                self.errors == old(self).errors,
                self.line == old(self).line,
                self.start == old(self).start,
                old(self).current <= self.current,
                identifier_end(self.source@, self.current as nat) == identifier_end(
                    old(self).source@,
                    old(self).current as nat,
                ),
            decreases self.source@.len() - self.current,
        {
            self.current = self.current + 1;
        }
        let text = self.substr(self.start, self.current);
        let token_type = TokenType::get_token_type(text.as_str());
        self.add_token(token_type);
    }

    fn scan_token(&mut self)
        requires
            old(self).wf(),
            old(self).current < old(self).source@.len(),
        ensures
            final(self).wf(),
            final(self).source@ == old(self).source@,
            final(self).current > old(self).current,
            final(self).state() == old(self).state().scan_token(old(self).source@),
    {
        self.start = self.current;
        let c = self.source[self.current];
        self.current = self.current + 1;
        if c == '(' {
            self.add_token(TokenType::LEFT_PAREN);
        } else if c == ')' {
            self.add_token(TokenType::RIGHT_PAREN);
        } else if c == '{' {
            self.add_token(TokenType::LEFT_BRACE);
        } else if c == '}' {
            self.add_token(TokenType::RIGHT_BRACE);
        } else if c == ',' {
            self.add_token(TokenType::COMMA);
        } else if c == '.' {
            self.add_token(TokenType::DOT);
        } else if c == '-' {
            self.add_token(TokenType::MINUS);
        } else if c == '+' {
            self.add_token(TokenType::PLUS);
        } else if c == ';' {
            self.add_token(TokenType::SEMICOLON);
        } else if c == '*' {
            self.add_token(TokenType::STAR);
        } else if c == '=' {
            self.handle_comparison(TokenType::EQUAL, TokenType::EQUAL_EQUAL);
        } else if c == '!' {
            self.handle_comparison(TokenType::BANG, TokenType::BANG_EQUAL);
        } else if c == '<' {
            self.handle_comparison(TokenType::LESS, TokenType::LESS_EQUAL);
        } else if c == '>' {
            self.handle_comparison(TokenType::GREATER, TokenType::GREATER_EQUAL);
        } else if c == '/' {
            self.handle_slash();
        } else if c == ' ' || c == '\r' || c == '\t' {
        } else if c == '\n' {
            self.line = self.line + 1;
        } else if c == '"' {
            self.handle_string();
        } else if Scanner::is_digit(c) {
            self.handle_number();
        } else if Scanner::is_letter(c) || c.is_alphabetic() || c == '_' {
            self.handle_identifier();
        } else {
            let mut message = String::from_str("Unexpected character: ");
            message.push(c);
            self.report(message.as_str());
        }
    }

    /// Scans what is left of the text and ends the tokens with `EOF`. The
    /// tokens are those of [`scan`], and a parser can read them.
    pub fn scan_tokens(&mut self) -> (tokens: Vec<Token>)
        requires
            old(self).wf(),
        ensures
            final(self).source() == old(self).source(),
            final(self).state() == old(self).state().scan_all(old(self).source()).finish(),
            tokens_view(tokens@) == final(self).state().tokens,
            well_formed(tokens_view(tokens@)),
    {
        while !self.is_at_end()
            invariant
                self.wf(),
                self.source@ == old(self).source@,
                self.state().scan_all(self.source@) == old(self).state().scan_all(
                    old(self).source@,
                ),
            decreases self.source@.len() - self.current,
        {
            self.scan_token();
        }
        let token = Token {
            token_type: TokenType::EOF,
            lexeme: String::new(),
            literal: None,
            line: self.line,
        };
        let ghost before = tokens_view(self.tokens@);
        self.tokens.push(token);
        assert(tokens_view(self.tokens@) =~= before.push(token@));
        let tokens = self.tokens.clone();
        assert(tokens@ =~= self.tokens@);
        tokens
    }
}

} // verus!
