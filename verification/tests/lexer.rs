use teeny::error::LexicalError;
use teeny::lex::Lexer;
use teeny::text::{belongs, char_at, classify, is_digit, is_forbidden, is_whitespace, same_text};
use teeny::text::{CharClass, Leading};
use teeny::token::{Token, TokenType};

fn tokens_of(source: &str) -> Vec<(TokenType, Option<String>)> {
    let mut lexer = Lexer::new(source.to_string());
    let mut found = Vec::new();
    loop {
        match lexer.get_token() {
            Ok(Some(token)) => {
                let done = token.token_type == TokenType::EOF;
                found.push((token.token_type, token.token_text));
                if done {
                    return found;
                }
            }
            Ok(None) => return found,
            Err(error) => panic!("lexical error: {:?}", error),
        }
    }
}

fn kinds_of(source: &str) -> Vec<TokenType> {
    tokens_of(source).into_iter().map(|(kind, _)| kind).collect()
}

fn text(s: &str) -> Option<String> {
    Some(s.to_string())
}

#[test]
fn new_lexer_rests_on_the_first_character() {
    let lexer = Lexer::new("ab".to_string());
    assert_eq!(lexer.current_pos, 0);
    assert_eq!(lexer.current_char, Some('a'));
    assert_eq!(lexer.data, "ab");
    let empty = Lexer::new(String::new());
    assert_eq!(empty.current_pos, 0);
    assert_eq!(empty.current_char, None);
}

#[test]
fn next_char_moves_by_one_and_past_the_end() {
    let mut lexer = Lexer::new("ab".to_string());
    lexer.next_char();
    assert_eq!((lexer.current_pos, lexer.current_char), (1, Some('b')));
    lexer.next_char();
    assert_eq!((lexer.current_pos, lexer.current_char), (2, None));
    lexer.next_char();
    assert_eq!((lexer.current_pos, lexer.current_char), (3, None));
}

#[test]
fn peek_looks_one_ahead_without_moving() {
    let mut lexer = Lexer::new("ab".to_string());
    assert_eq!(lexer.peek(), Some('b'));
    assert_eq!(lexer.current_pos, 0);
    assert_eq!(lexer.current_char, Some('a'));
    lexer.next_char();
    assert_eq!(lexer.peek(), None);
}

#[test]
fn cursor_counts_characters_not_bytes() {
    let mut lexer = Lexer::new("é+".to_string());
    assert_eq!(lexer.current_char, Some('é'));
    assert_eq!(lexer.peek(), Some('+'));
    lexer.next_char();
    assert_eq!((lexer.current_pos, lexer.current_char), (1, Some('+')));
}

#[test]
fn single_character_operators() {
    assert_eq!(
        tokens_of("+-*/\0"),
        vec![
            (TokenType::PLUS, text("+")),
            (TokenType::MINUS, text("-")),
            (TokenType::ASTERISK, text("*")),
            (TokenType::SLASH, text("/")),
            (TokenType::EOF, None),
        ]
    );
}

#[test]
fn operators_with_one_character_of_lookahead() {
    assert_eq!(
        tokens_of("= == > >= < <= !=\0"),
        vec![
            (TokenType::EQ, text("=")),
            (TokenType::EQEQ, None),
            (TokenType::GT, text(">")),
            (TokenType::GTEQ, text(">=")),
            (TokenType::LT, text("<")),
            (TokenType::LTEQ, text("<=")),
            (TokenType::NOTEQ, text("!=")),
            (TokenType::EOF, None),
        ]
    );
    assert_eq!(kinds_of("===\0"), vec![TokenType::EQEQ, TokenType::EQ, TokenType::EOF]);
    assert_eq!(kinds_of("<=>\0"), vec![TokenType::LTEQ, TokenType::GT, TokenType::EOF]);
}

#[test]
fn lone_bang_is_fatal() {
    let mut lexer = Lexer::new("a !b".to_string());
    assert!(lexer.get_token().is_ok());
    assert_eq!(lexer.get_token(), Err(LexicalError::LoneBang { position: 2 }));
    let mut at_end = Lexer::new("!".to_string());
    assert_eq!(at_end.get_token(), Err(LexicalError::LoneBang { position: 0 }));
}

#[test]
fn numbers_are_maximal_runs_of_digits_and_points() {
    assert_eq!(
        tokens_of("12 3.14 1.2.3 7.\0"),
        vec![
            (TokenType::NUMBER, text("12")),
            (TokenType::NUMBER, text("3.14")),
            (TokenType::NUMBER, text("1.2.3")),
            (TokenType::NUMBER, text("7.")),
            (TokenType::EOF, None),
        ]
    );
}

#[test]
fn number_leaves_the_next_character_in_place() {
    assert_eq!(
        tokens_of("5+3\n\0"),
        vec![
            (TokenType::NUMBER, text("5")),
            (TokenType::PLUS, text("+")),
            (TokenType::NUMBER, text("3")),
            (TokenType::NEWLINE, text("\n")),
            (TokenType::EOF, None),
        ]
    );
    let mut lexer = Lexer::new("42x".to_string());
    let token = lexer.get_token().unwrap().unwrap();
    assert_eq!(token, Token::new(text("42"), TokenType::NUMBER));
    assert_eq!((lexer.current_pos, lexer.current_char), (2, Some('x')));
}

#[test]
fn number_at_the_end_of_the_text() {
    let mut lexer = Lexer::new("42".to_string());
    assert_eq!(lexer.get_token(), Ok(Some(Token::new(text("42"), TokenType::NUMBER))));
    assert_eq!((lexer.current_pos, lexer.current_char), (2, None));
}

#[test]
fn point_starts_no_number() {
    let mut lexer = Lexer::new(".5".to_string());
    assert_eq!(lexer.get_token(), Ok(None));
    assert_eq!(lexer.current_pos, 0);
}

#[test]
fn digit_wins_over_letter() {
    assert_eq!(
        tokens_of("1a\0"),
        vec![
            (TokenType::NUMBER, text("1")),
            (TokenType::IDENT, text("a")),
            (TokenType::EOF, None)
        ]
    );
    assert_eq!(
        tokens_of("a1\0"),
        vec![
            (TokenType::IDENT, text("a")),
            (TokenType::NUMBER, text("1")),
            (TokenType::EOF, None)
        ]
    );
}

#[test]
fn keywords_are_matched_without_regard_to_case() {
    assert_eq!(
        tokens_of("LABEL goto Print INPUT let If THEN endif WHILE Repeat EndWhile\0"),
        vec![
            (TokenType::LABEL, text("LABEL")),
            (TokenType::GOTO, text("goto")),
            (TokenType::PRINT, text("Print")),
            (TokenType::INPUT, text("INPUT")),
            (TokenType::LET, text("let")),
            (TokenType::IF, text("If")),
            (TokenType::THEN, text("THEN")),
            (TokenType::ENDIF, text("endif")),
            (TokenType::WHILE, text("WHILE")),
            (TokenType::REPEAT, text("Repeat")),
            (TokenType::ENDWHILE, text("EndWhile")),
            (TokenType::EOF, None),
        ]
    );
}

#[test]
fn identifiers_keep_their_case() {
    assert_eq!(
        tokens_of("Foo bAr printer\0"),
        vec![
            (TokenType::IDENT, text("Foo")),
            (TokenType::IDENT, text("bAr")),
            (TokenType::IDENT, text("printer")),
            (TokenType::EOF, None),
        ]
    );
}

#[test]
fn words_hold_any_alphabetic_character() {
    assert_eq!(
        tokens_of("été λx\0"),
        vec![
            (TokenType::IDENT, text("été")),
            (TokenType::IDENT, text("λx")),
            (TokenType::EOF, None)
        ]
    );
}

#[test]
fn word_at_the_end_of_the_text() {
    let mut lexer = Lexer::new("abc".to_string());
    assert_eq!(lexer.get_token(), Ok(Some(Token::new(text("abc"), TokenType::IDENT))));
    assert_eq!((lexer.current_pos, lexer.current_char), (3, None));
    let mut single = Lexer::new("a".to_string());
    assert_eq!(single.get_token(), Ok(Some(Token::new(text("a"), TokenType::IDENT))));
}

#[test]
fn underscore_ends_a_word() {
    let mut lexer = Lexer::new("ab_c".to_string());
    assert_eq!(lexer.get_token(), Ok(Some(Token::new(text("ab"), TokenType::IDENT))));
    assert_eq!(lexer.get_token(), Ok(None));
    assert_eq!(lexer.current_pos, 2);
}

#[test]
fn string_literal_is_what_stands_between_the_quotes() {
    assert_eq!(
        tokens_of("\"hello, world!\" \"\" \"# no comment\"\0"),
        vec![
            (TokenType::STRING, text("hello, world!")),
            (TokenType::STRING, text("")),
            (TokenType::STRING, text("# no comment")),
            (TokenType::EOF, None),
        ]
    );
    let mut lexer = Lexer::new("\"ab\"c".to_string());
    assert!(lexer.get_token().is_ok());
    assert_eq!((lexer.current_pos, lexer.current_char), (4, Some('c')));
}

#[test]
fn forbidden_characters_in_a_string_are_fatal() {
    for (source, found) in [
        ("\"a\nb\"", '\n'),
        ("\"a\rb\"", '\r'),
        ("\"a%b\"", '%'),
        ("\"a\tb\"", '\t'),
        ("\"a\\b\"", '\\'),
    ] {
        let mut lexer = Lexer::new(source.to_string());
        assert_eq!(
            lexer.get_token(),
            Err(LexicalError::InvalidStringCharacter { found, position: 2 })
        );
    }
}

#[test]
fn string_that_the_text_ends_in_is_fatal() {
    let mut lexer = Lexer::new("x \"abc".to_string());
    assert!(lexer.get_token().is_ok());
    assert_eq!(lexer.get_token(), Err(LexicalError::UnterminatedString { position: 2 }));
    let mut only_quote = Lexer::new("\"".to_string());
    assert_eq!(only_quote.get_token(), Err(LexicalError::UnterminatedString { position: 0 }));
}

#[test]
fn line_break_and_end_of_input() {
    assert_eq!(
        tokens_of("\n\n\0"),
        vec![
            (TokenType::NEWLINE, text("\n")),
            (TokenType::NEWLINE, text("\n")),
            (TokenType::EOF, None)
        ]
    );
}

#[test]
fn runs_of_blanks_are_skipped() {
    assert_eq!(kinds_of("  \t\r  +\0"), vec![TokenType::PLUS, TokenType::EOF]);
    assert_eq!(
        kinds_of("a \t b\r\n\0"),
        vec![TokenType::IDENT, TokenType::IDENT, TokenType::NEWLINE, TokenType::EOF]
    );
}

#[test]
fn comment_runs_up_to_the_line_break() {
    assert_eq!(
        kinds_of("a # b + \"c\n d\0"),
        vec![TokenType::IDENT, TokenType::NEWLINE, TokenType::IDENT, TokenType::EOF]
    );
    assert_eq!(kinds_of("# only\n\0"), vec![TokenType::NEWLINE, TokenType::EOF]);
    let mut unended = Lexer::new("# to the end".to_string());
    assert_eq!(unended.get_token(), Ok(None));
    assert_eq!(unended.current_pos, 13);
}

#[test]
fn blanks_after_a_comment_line_belong_to_the_next_call() {
    let mut lexer = Lexer::new("#c\n  x".to_string());
    assert_eq!(lexer.get_token(), Ok(Some(Token::new(text("\n"), TokenType::NEWLINE))));
    assert_eq!(lexer.get_token(), Ok(Some(Token::new(text("x"), TokenType::IDENT))));
}

#[test]
fn unrecognized_character_gives_no_token_and_holds_the_cursor() {
    let mut lexer = Lexer::new("a @b".to_string());
    assert!(lexer.get_token().unwrap().is_some());
    assert_eq!(lexer.get_token(), Ok(None));
    assert_eq!((lexer.current_pos, lexer.current_char), (2, Some('@')));
    assert_eq!(lexer.get_token(), Ok(None));
    assert_eq!((lexer.current_pos, lexer.current_char), (2, Some('@')));
}

#[test]
fn past_the_end_there_is_no_token_and_the_cursor_moves_on() {
    let mut lexer = Lexer::new("a".to_string());
    assert!(lexer.get_token().unwrap().is_some());
    assert_eq!(lexer.current_pos, 1);
    assert_eq!(lexer.get_token(), Ok(None));
    assert_eq!(lexer.current_pos, 2);
    assert_eq!(lexer.get_token(), Ok(None));
    assert_eq!(lexer.current_pos, 3);
}

#[test]
fn no_token_follows_the_end_of_input() {
    for source in ["\0a", "\0\0", "\0 !", "\0\"open", "\0"] {
        let mut lexer = Lexer::new(source.to_string());
        assert_eq!(lexer.get_token(), Ok(Some(Token::new(None, TokenType::EOF))));
        assert_eq!(lexer.current_pos as usize, source.chars().count());
        assert_eq!(lexer.current_char, None);
        assert_eq!(lexer.get_token(), Ok(None));
        assert_eq!(lexer.get_token(), Ok(None));
    }
}

#[test]
fn a_statement_in_tokens() {
    assert_eq!(
        tokens_of("IF a<=10 THEN # check\n\0"),
        vec![
            (TokenType::IF, text("IF")),
            (TokenType::IDENT, text("a")),
            (TokenType::LTEQ, text("<=")),
            (TokenType::NUMBER, text("10")),
            (TokenType::THEN, text("THEN")),
            (TokenType::NEWLINE, text("\n")),
            (TokenType::EOF, None),
        ]
    );
}

#[test]
fn classify_goes_by_digit_first() {
    assert_eq!(classify('7', false), Leading::Number);
    assert_eq!(classify('7', true), Leading::Number);
    assert_eq!(classify('x', true), Leading::Word);
    assert_eq!(classify('x', false), Leading::Other);
    assert_eq!(classify('+', false), Leading::Other);
    assert_eq!(classify('.', false), Leading::Other);
}

#[test]
fn classes_of_characters() {
    for c in [' ', '\t', '\r'] {
        assert!(belongs(CharClass::Blank, c, false));
        assert!(is_whitespace(c));
    }
    assert!(!belongs(CharClass::Blank, '\n', false));
    assert!(!is_whitespace('\n'));
    assert!(belongs(CharClass::Comment, '#', false));
    assert!(!belongs(CharClass::Comment, '\n', false));
    assert!(belongs(CharClass::Number, '0', false));
    assert!(belongs(CharClass::Number, '9', false));
    assert!(belongs(CharClass::Number, '.', false));
    assert!(!belongs(CharClass::Number, 'a', true));
    assert!(belongs(CharClass::Letter, 'a', true));
    assert!(!belongs(CharClass::Letter, 'a', false));
    assert!(belongs(CharClass::Literal, 'a', true));
    assert!(belongs(CharClass::Literal, '#', false));
    for c in ['"', '\n', '\r', '%', '\t', '\\'] {
        assert!(!belongs(CharClass::Literal, c, false));
    }
    for c in ['\n', '\r', '%', '\t', '\\'] {
        assert!(is_forbidden(c));
    }
    assert!(!is_forbidden('"'));
    assert!(!is_forbidden('a'));
    assert!(is_digit('0') && is_digit('5') && is_digit('9'));
    assert!(!is_digit('/') && !is_digit(':') && !is_digit('a') && !is_digit('٣'));
}

#[test]
fn characters_by_position() {
    let data = "aé\0".to_string();
    assert_eq!(char_at(&data, 0), Some('a'));
    assert_eq!(char_at(&data, 1), Some('é'));
    assert_eq!(char_at(&data, 2), Some('\0'));
    assert_eq!(char_at(&data, 3), None);
    assert_eq!(char_at(&data, -1), None);
    assert_eq!(char_at(&data, i64::MAX), None);
}

#[test]
fn texts_are_compared_by_their_characters() {
    assert!(same_text("print", "print"));
    assert!(!same_text("print", "PRINT"));
    assert!(!same_text("print", "prin"));
    assert!(same_text("", ""));
}

#[test]
fn after_a_lexical_error_the_cursor_rests_where_it_was_met() {
    let mut lexer = Lexer::new("a  !b".to_string());
    assert!(lexer.get_token().is_ok());
    assert_eq!(lexer.get_token(), Err(LexicalError::LoneBang { position: 3 }));
    assert_eq!((lexer.current_pos, lexer.current_char), (3, Some('!')));
    let mut lexer = Lexer::new("\"ab%c\"".to_string());
    assert_eq!(
        lexer.get_token(),
        Err(LexicalError::InvalidStringCharacter { found: '%', position: 3 })
    );
    assert_eq!((lexer.current_pos, lexer.current_char), (3, Some('%')));
    let mut lexer = Lexer::new("\"abc".to_string());
    assert_eq!(lexer.get_token(), Err(LexicalError::UnterminatedString { position: 0 }));
    assert_eq!((lexer.current_pos, lexer.current_char), (4, None));
}
