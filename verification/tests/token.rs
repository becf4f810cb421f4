use teeny::token::{Token, TokenType};

const KEYWORDS: [(&str, TokenType); 11] = [
    ("label", TokenType::LABEL),
    ("goto", TokenType::GOTO),
    ("print", TokenType::PRINT),
    ("input", TokenType::INPUT),
    ("let", TokenType::LET),
    ("if", TokenType::IF),
    ("then", TokenType::THEN),
    ("endif", TokenType::ENDIF),
    ("while", TokenType::WHILE),
    ("repeat", TokenType::REPEAT),
    ("endwhile", TokenType::ENDWHILE),
];

#[test]
fn new_token_holds_what_it_is_given() {
    let token = Token::new(Some("abc".to_string()), TokenType::IDENT);
    assert_eq!(token.token_text, Some("abc".to_string()));
    assert_eq!(token.token_type, TokenType::IDENT);
    let bare = Token::new(None, TokenType::EOF);
    assert_eq!(bare.token_text, None);
    assert_eq!(bare.token_type, TokenType::EOF);
}

#[test]
fn from_string_finds_every_keyword() {
    for (word, kind) in KEYWORDS {
        let token = TokenType::from_string(word.to_string());
        assert_eq!(token.token_type, kind);
        assert_eq!(token.token_text, Some(word.to_string()));
    }
}

#[test]
fn from_string_ignores_case_and_keeps_the_spelling() {
    for (word, kind) in KEYWORDS {
        let upper = word.to_uppercase();
        let token = TokenType::from_string(upper.clone());
        assert_eq!(token.token_type, kind);
        assert_eq!(token.token_text, Some(upper));
    }
    let mixed = TokenType::from_string("EndWhile".to_string());
    assert_eq!(mixed, Token::new(Some("EndWhile".to_string()), TokenType::ENDWHILE));
}

#[test]
fn from_string_makes_other_words_identifiers() {
    for word in ["x", "labels", "got", "printf", "iff", "end", "whil", "", "PRINTS"] {
        let token = TokenType::from_string(word.to_string());
        assert_eq!(token.token_type, TokenType::IDENT);
        assert_eq!(token.token_text, Some(word.to_string()));
    }
}

#[test]
fn from_lowercase_expects_lowercase() {
    for (word, kind) in KEYWORDS {
        assert_eq!(TokenType::from_lowercase(word), kind);
        assert_eq!(TokenType::from_lowercase(&word.to_uppercase()), TokenType::IDENT);
    }
    assert_eq!(TokenType::from_lowercase("name"), TokenType::IDENT);
}

#[test]
fn relational_operators() {
    for kind in [
        TokenType::EQEQ,
        TokenType::NOTEQ,
        TokenType::LT,
        TokenType::LTEQ,
        TokenType::GT,
        TokenType::GTEQ,
    ] {
        assert!(kind.is_relational());
    }
    for kind in [
        TokenType::EQ,
        TokenType::PLUS,
        TokenType::MINUS,
        TokenType::ASTERISK,
        TokenType::SLASH,
        TokenType::IDENT,
        TokenType::NUMBER,
        TokenType::THEN,
        TokenType::EOF,
        TokenType::NEWLINE,
    ] {
        assert!(!kind.is_relational());
    }
}

#[test]
fn clone_gives_the_same_kind() {
    let all = [
        TokenType::EOF,
        TokenType::NEWLINE,
        TokenType::NUMBER,
        TokenType::IDENT,
        TokenType::STRING,
        TokenType::LABEL,
        TokenType::GOTO,
        TokenType::PRINT,
        TokenType::INPUT,
        TokenType::LET,
        TokenType::IF,
        TokenType::THEN,
        TokenType::ENDIF,
        TokenType::WHILE,
        TokenType::REPEAT,
        TokenType::ENDWHILE,
        TokenType::EQ,
        TokenType::PLUS,
        TokenType::MINUS,
        TokenType::ASTERISK,
        TokenType::SLASH,
        TokenType::EQEQ,
        TokenType::NOTEQ,
        TokenType::LT,
        TokenType::LTEQ,
        TokenType::GT,
        TokenType::GTEQ,
    ];
    for (i, kind) in all.iter().enumerate() {
        assert_eq!(kind.clone(), *kind);
        for (j, other) in all.iter().enumerate() {
            assert_eq!(i == j, kind == other);
        }
    }
    let token = Token::new(Some("a".to_string()), TokenType::IDENT);
    assert_eq!(token.clone(), token);
}
