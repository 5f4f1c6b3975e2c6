use lox_interpreter::{get_token_type, Literal, Piece, Scanner, Token, TokenType};

fn scan(source: &str) -> (Vec<Token>, Vec<String>) {
    let mut scanner = Scanner::new(source);
    let tokens = scanner.scan_tokens();
    assert_eq!(scanner.error(), !scanner.errors().is_empty());
    (tokens, scanner.errors().clone())
}

fn kinds(source: &str) -> Vec<TokenType> {
    scan(source).0.iter().map(|token| token.token_type).collect()
}

fn listing(token: &Token) -> String {
    let mut line = String::new();
    for piece in token.render() {
        match piece {
            Piece::Text(text) => line.push_str(&text),
            Piece::Number(bits) => line.push_str(&format!("{:?}", f64::from_bits(bits))),
            Piece::Numeral(numeral) => {
                line.push_str(&format!("{:?}", numeral.parse::<f64>().unwrap()))
            }
        }
    }
    line
}

#[test]
fn empty_text_is_one_eof_token() {
    let (tokens, errors) = scan("");
    assert!(errors.is_empty());
    assert_eq!(
        tokens,
        vec![Token { token_type: TokenType::EOF, lexeme: String::new(), literal: None, line: 1 }]
    );
    assert_eq!(listing(&tokens[0]), "EOF  null");
}

#[test]
fn punctuation_and_operators() {
    assert_eq!(
        kinds("(){},.-+;*/ = == ! != < <= > >="),
        vec![
            TokenType::LEFT_PAREN,
            TokenType::RIGHT_PAREN,
            TokenType::LEFT_BRACE,
            TokenType::RIGHT_BRACE,
            TokenType::COMMA,
            TokenType::DOT,
            TokenType::MINUS,
            TokenType::PLUS,
            TokenType::SEMICOLON,
            TokenType::STAR,
            TokenType::SLASH,
            TokenType::EQUAL,
            TokenType::EQUAL_EQUAL,
            TokenType::BANG,
            TokenType::BANG_EQUAL,
            TokenType::LESS,
            TokenType::LESS_EQUAL,
            TokenType::GREATER,
            TokenType::GREATER_EQUAL,
            TokenType::EOF,
        ]
    );
}

#[test]
fn two_character_operators_take_both_characters() {
    let (tokens, _) = scan("a<=b");
    assert_eq!(tokens[1].lexeme, "<=");
    assert_eq!(tokens[1].token_type, TokenType::LESS_EQUAL);
    assert_eq!(tokens[2].lexeme, "b");
    assert_eq!(kinds("==="), vec![TokenType::EQUAL_EQUAL, TokenType::EQUAL, TokenType::EOF]);
}

#[test]
fn keywords_and_identifiers() {
    let words = [
        ("and", TokenType::AND),
        ("class", TokenType::CLASS),
        ("else", TokenType::ELSE),
        ("false", TokenType::FALSE),
        ("for", TokenType::FOR),
        ("fun", TokenType::FUN),
        ("if", TokenType::IF),
        ("nil", TokenType::NIL),
        ("or", TokenType::OR),
        ("print", TokenType::PRINT),
        ("return", TokenType::RETURN),
        ("super", TokenType::SUPER),
        ("this", TokenType::THIS),
        ("true", TokenType::TRUE),
        ("var", TokenType::VAR),
        ("while", TokenType::WHILE),
        ("orchid", TokenType::IDENTIFIER),
        ("an", TokenType::IDENTIFIER),
        ("And", TokenType::IDENTIFIER),
        ("", TokenType::IDENTIFIER),
    ];
    for (word, kind) in words {
        assert_eq!(TokenType::get_token_type(word), kind);
        assert_eq!(get_token_type(word), kind);
    }
    assert_eq!(
        kinds("var _x1 = classy;"),
        vec![
            TokenType::VAR,
            TokenType::IDENTIFIER,
            TokenType::EQUAL,
            TokenType::IDENTIFIER,
            TokenType::SEMICOLON,
            TokenType::EOF,
        ]
    );
}

#[test]
fn identifiers_may_hold_letters_of_any_script() {
    let (tokens, errors) = scan("größe2 π");
    assert!(errors.is_empty());
    assert_eq!(tokens[0].lexeme, "größe2");
    assert_eq!(tokens[0].token_type, TokenType::IDENTIFIER);
    assert_eq!(tokens[1].lexeme, "π");
    assert_eq!(tokens.len(), 3);
}

#[test]
fn numbers_keep_their_numeral() {
    let (tokens, errors) = scan("12 12.40 7. .5 1.2.3");
    assert!(errors.is_empty());
    let shown: Vec<(TokenType, &str)> =
        tokens.iter().map(|token| (token.token_type, token.lexeme.as_str())).collect();
    assert_eq!(
        shown,
        vec![
            (TokenType::NUMBER, "12"),
            (TokenType::NUMBER, "12.40"),
            (TokenType::NUMBER, "7"),
            (TokenType::DOT, "."),
            (TokenType::DOT, "."),
            (TokenType::NUMBER, "5"),
            (TokenType::NUMBER, "1.2"),
            (TokenType::DOT, "."),
            (TokenType::NUMBER, "3"),
            (TokenType::EOF, ""),
        ]
    );
    assert_eq!(tokens[1].literal, Some(Literal::Number("12.40".to_string())));
    assert_eq!(listing(&tokens[0]), "NUMBER 12 12.0");
    assert_eq!(listing(&tokens[1]), "NUMBER 12.40 12.4");
}

#[test]
fn strings_lose_their_quotes_and_count_lines() {
    let (tokens, errors) = scan("\"one\ntwo\" after");
    assert!(errors.is_empty());
    assert_eq!(tokens[0].token_type, TokenType::STRING);
    assert_eq!(tokens[0].lexeme, "\"one\ntwo\"");
    assert_eq!(tokens[0].literal, Some(Literal::String("one\ntwo".to_string())));
    assert_eq!(tokens[0].line, 2);
    assert_eq!(tokens[1].line, 2);
    assert_eq!(listing(&tokens[0]), "STRING \"one\ntwo\" one\ntwo");
    let (empty, _) = scan("\"\"");
    assert_eq!(empty[0].literal, Some(Literal::String(String::new())));
}

#[test]
fn unterminated_string_is_an_error() {
    let (tokens, errors) = scan("var a = \"open\nstill open");
    assert_eq!(errors, vec!["[line 2] Error: Unterminated string."]);
    assert_eq!(
        tokens.iter().map(|token| token.token_type).collect::<Vec<_>>(),
        vec![TokenType::VAR, TokenType::IDENTIFIER, TokenType::EQUAL, TokenType::EOF]
    );
    assert_eq!(tokens[3].line, 2);
}

#[test]
fn unexpected_characters_are_errors_and_the_scan_goes_on() {
    let (tokens, errors) = scan(",.$(#\n@");
    assert_eq!(
        errors,
        vec![
            "[line 1] Error: Unexpected character: $",
            "[line 1] Error: Unexpected character: #",
            "[line 2] Error: Unexpected character: @",
        ]
    );
    assert_eq!(
        tokens.iter().map(|token| token.token_type).collect::<Vec<_>>(),
        vec![TokenType::COMMA, TokenType::DOT, TokenType::LEFT_PAREN, TokenType::EOF]
    );
}

#[test]
fn comments_and_blanks_are_skipped() {
    let (tokens, errors) = scan("// first\n\t a // second\r\n/ b //");
    assert!(errors.is_empty());
    let shown: Vec<(TokenType, &str, usize)> = tokens
        .iter()
        .map(|token| (token.token_type, token.lexeme.as_str(), token.line))
        .collect();
    assert_eq!(
        shown,
        vec![
            (TokenType::IDENTIFIER, "a", 2),
            (TokenType::SLASH, "/", 3),
            (TokenType::IDENTIFIER, "b", 3),
            (TokenType::EOF, "", 3),
        ]
    );
}

#[test]
fn lines_are_counted_from_one() {
    let (tokens, _) = scan("a\nb\n\nc");
    assert_eq!(tokens.iter().map(|token| token.line).collect::<Vec<_>>(), vec![1, 2, 4, 4]);
}

#[test]
fn scanning_twice_appends_a_second_end() {
    let mut scanner = Scanner::new("a");
    assert_eq!(scanner.scan_tokens().len(), 2);
    assert_eq!(scanner.scan_tokens().len(), 3);
}

#[test]
fn token_kinds_have_their_names() {
    assert_eq!(TokenType::LEFT_PAREN.name(), "LEFT_PAREN");
    assert_eq!(TokenType::GREATER_EQUAL.name(), "GREATER_EQUAL");
    assert_eq!(TokenType::EOF.name(), "EOF");
    let (tokens, _) = scan("var language = \"lox\";");
    let listed: Vec<String> = tokens.iter().map(listing).collect();
    assert_eq!(
        listed,
        vec![
            "VAR var null",
            "IDENTIFIER language null",
            "EQUAL = null",
            "STRING \"lox\" lox",
            "SEMICOLON ; null",
            "EOF  null",
        ]
    );
}

#[test]
fn digits_of_other_scripts_go_on_an_identifier_but_do_not_start_one() {
    let (tokens, errors) = scan("a٣ ٣");
    assert_eq!(tokens[0].lexeme, "a٣");
    assert_eq!(tokens[0].token_type, TokenType::IDENTIFIER);
    assert_eq!(errors, vec!["[line 1] Error: Unexpected character: ٣"]);
    assert_eq!(tokens.len(), 2);
}

#[test]
fn a_token_is_made_of_its_four_parts() {
    let made = Token::new(
        TokenType::STRING,
        "\"hi\"".to_string(),
        Some(Literal::String("hi".to_string())),
        3,
    );
    let (tokens, _) = scan("\n\n\"hi\"");
    assert_eq!(tokens[0], made);
    assert_eq!(made.clone(), made);
}
