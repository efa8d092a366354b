use rlox::scanner::Scanner;
use rlox::token::TokenType;
use rlox::token::TokenType::{
    AND, BANG, BANG_EQUAL, CLASS, COMMA, DOT, ELSE, EOF, EQUAL, EQUAL_EQUAL, FALSE, FOR, FUN,
    GREATER, GREATER_EQUAL, IDENTIFIER, IF, LEFT_BRACE, LEFT_PAREN, LESS, LESS_EQUAL, MINUS, NIL,
    OR, PLUS, PRINT, RETURN, RIGHT_BRACE, RIGHT_PAREN, SEMICOLON, SLASH, STAR, SUPER, THIS, TRUE,
    VAR, WHILE,
};

fn kinds(source: &str) -> Vec<TokenType> {
    let mut scanner = Scanner::new(source.to_string());
    let mut out = Vec::new();
    loop {
        let t = scanner.scan_token();
        out.push(t.token_type);
        if t.token_type == TokenType::EOF {
            return out;
        }
    }
}

fn text(v: &[char]) -> String {
    v.iter().collect()
}

#[test]
fn scans_punctuation_and_operators() {
    assert_eq!(
        kinds("(){};,.-+/*! != = == < <= > >="),
        vec![
            LEFT_PAREN, RIGHT_PAREN, LEFT_BRACE, RIGHT_BRACE, SEMICOLON, COMMA, DOT, MINUS,
            PLUS, SLASH, STAR, BANG, BANG_EQUAL, EQUAL, EQUAL_EQUAL, LESS, LESS_EQUAL,
            GREATER, GREATER_EQUAL, EOF
        ]
    );
}

#[test]
fn scans_every_keyword_and_near_misses() {
    assert_eq!(
        kinds("and class else if nil or print return super var while false for fun this true"),
        vec![
            AND, CLASS, ELSE, IF, NIL, OR, PRINT, RETURN, SUPER, VAR, WHILE, FALSE, FOR, FUN,
            THIS, TRUE, EOF
        ]
    );
    assert_eq!(
        kinds("andy fo fort _var varx t f"),
        vec![IDENTIFIER, IDENTIFIER, IDENTIFIER, IDENTIFIER, IDENTIFIER, IDENTIFIER, IDENTIFIER, EOF]
    );
}

#[test]
fn scans_numbers_with_optional_fraction() {
    let mut s = Scanner::new("12.5 7. .5".to_string());
    let t = s.scan_token();
    assert_eq!(t.token_type, TokenType::NUMBER);
    assert_eq!(text(&t.lexeme), "12.5");
    let t = s.scan_token();
    assert_eq!(text(&t.lexeme), "7");
    assert_eq!(s.scan_token().token_type, TokenType::DOT);
    assert_eq!(s.scan_token().token_type, TokenType::DOT);
    let t = s.scan_token();
    assert_eq!(t.token_type, TokenType::NUMBER);
    assert_eq!(text(&t.lexeme), "5");
}

#[test]
fn skips_whitespace_and_line_comments_counting_lines() {
    let mut s = Scanner::new("  // ab\n\t1 // tail\r\n\n+".to_string());
    let t = s.scan_token();
    assert_eq!(t.token_type, TokenType::NUMBER);
    assert_eq!(t.line, 2);
    let t = s.scan_token();
    assert_eq!(t.token_type, TokenType::PLUS);
    assert_eq!(t.line, 4);
    assert_eq!(s.scan_token().token_type, TokenType::EOF);
}

#[test]
fn scans_strings_across_lines() {
    let mut s = Scanner::new("\"a\nb\" x".to_string());
    let t = s.scan_token();
    assert_eq!(t.token_type, TokenType::STRING);
    assert_eq!(text(&t.lexeme), "\"a\nb\"");
    assert_eq!(t.line, 2);
}

#[test]
fn unterminated_string_is_an_error_token() {
    let mut s = Scanner::new("\"abc".to_string());
    let t = s.scan_token();
    assert_eq!(t.token_type, TokenType::ERROR);
    assert_eq!(text(&t.lexeme), "Unterminated string.");
    assert_eq!(s.scan_token().token_type, TokenType::EOF);
}

#[test]
fn unexpected_character_is_an_error_token() {
    let mut s = Scanner::new("\n @".to_string());
    let t = s.scan_token();
    assert_eq!(t.token_type, TokenType::ERROR);
    assert_eq!(text(&t.lexeme), "Unexpected character: @");
    assert_eq!(t.line, 2);
}

#[test]
fn end_of_input_repeats() {
    let mut s = Scanner::new("".to_string());
    for _ in 0..3 {
        let t = s.scan_token();
        assert_eq!(t.token_type, TokenType::EOF);
        assert!(t.lexeme.is_empty());
        assert_eq!(t.line, 1);
    }
}

#[test]
fn consecutive_comment_lines_are_skipped() {
    let mut s = Scanner::new("//x".to_string());
    assert_eq!(s.scan_token().token_type, TokenType::EOF);
    let mut s = Scanner::new("a // one\n  // two\n\tb".to_string());
    let t = s.scan_token();
    assert_eq!(text(&t.lexeme), "a");
    let t = s.scan_token();
    assert_eq!(text(&t.lexeme), "b");
    assert_eq!(t.line, 3);
    assert_eq!(s.scan_token().token_type, TokenType::EOF);
}
