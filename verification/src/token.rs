//! Tokens: their kinds, their optional text, and the classification of words.
use vstd::prelude::*;
use crate::text::{lowercase_of, same_text};

verus! {

/// The kind of a token.
#[derive(Debug, PartialEq, Eq, Structural)]
pub enum TokenType {
    EOF,
    NEWLINE,
    NUMBER,
    IDENT,
    STRING,
    // Keywords
    LABEL,
    GOTO,
    PRINT,
    INPUT,
    LET,
    IF,
    THEN,
    ENDIF,
    WHILE,
    REPEAT,
    ENDWHILE,
    // Operators
    EQ,
    PLUS,
    MINUS,
    ASTERISK,
    SLASH,
    EQEQ,
    NOTEQ,
    LT,
    LTEQ,
    GT,
    GTEQ,
}

impl Clone for TokenType {
    fn clone(&self) -> (r: Self)
        ensures
            r == *self,
    {
        match self {
            Self::EOF => Self::EOF,
            Self::NEWLINE => Self::NEWLINE,
            Self::NUMBER => Self::NUMBER,
            Self::IDENT => Self::IDENT,
            Self::STRING => Self::STRING,
            Self::LABEL => Self::LABEL,
            Self::GOTO => Self::GOTO,
            Self::PRINT => Self::PRINT,
            Self::INPUT => Self::INPUT,
            Self::LET => Self::LET,
            Self::IF => Self::IF,
            Self::THEN => Self::THEN,
            Self::ENDIF => Self::ENDIF,
            Self::WHILE => Self::WHILE,
            Self::REPEAT => Self::REPEAT,
            Self::ENDWHILE => Self::ENDWHILE,
            Self::EQ => Self::EQ,
            Self::PLUS => Self::PLUS,
            Self::MINUS => Self::MINUS,
            Self::ASTERISK => Self::ASTERISK,
            Self::SLASH => Self::SLASH,
            Self::EQEQ => Self::EQEQ,
            Self::NOTEQ => Self::NOTEQ,
            Self::LT => Self::LT,
            Self::LTEQ => Self::LTEQ,
            Self::GT => Self::GT,
            Self::GTEQ => Self::GTEQ,
        }
    }
}

impl Copy for TokenType {

}

/// A token as the contracts see it: its kind and the characters of its text.
pub struct TokenView {
    pub kind: TokenType,
    pub text: Option<Seq<char>>,
}

/// A classified piece of source text. Numbers, identifiers, keywords, strings and the
/// operators spelled in the source carry their text; the end-of-input token and `==` do not.
#[derive(Clone, Debug, PartialEq, Eq)]
pub struct Token {
    pub token_text: Option<String>,
    pub token_type: TokenType,
}

impl View for Token {
    type V = TokenView;

    open spec fn view(&self) -> TokenView {
        TokenView {
            kind: self.token_type,
            text: match self.token_text {
                Some(text) => Some(text@),
                None => None,
            },
        }
    }
}

/// The view of a token that may be absent.
pub open spec fn view_of(token: Option<Token>) -> Option<TokenView> {
    match token {
        Some(t) => Some(t@),
        None => None,
    }
}

impl Token {
    /// A token of the given kind with the given text.
    pub fn new(token_text: Option<String>, token_type: TokenType) -> (r: Self)
        ensures
            r.token_text == token_text,
            r.token_type == token_type,
    {
        Token { token_text, token_type }
    }
}

/// The kind of the word whose lowercase form is `lower`: one of the eleven keywords, or an
/// identifier.
pub open spec fn word_kind(lower: Seq<char>) -> TokenType {
    if lower == "label"@ {
        TokenType::LABEL
    } else if lower == "goto"@ {
        TokenType::GOTO
    } else if lower == "print"@ {
        TokenType::PRINT
    } else if lower == "input"@ {
        TokenType::INPUT
    } else if lower == "let"@ {
        TokenType::LET
    } else if lower == "if"@ {
        TokenType::IF
    } else if lower == "then"@ {
        TokenType::THEN
    } else if lower == "endif"@ {
        TokenType::ENDIF
    } else if lower == "while"@ {
        TokenType::WHILE
    } else if lower == "repeat"@ {
        TokenType::REPEAT
    } else if lower == "endwhile"@ {
        TokenType::ENDWHILE
    } else {
        TokenType::IDENT
    }
}

/// The token that a word of the source becomes: keywords are matched without regard to
/// case, and the token keeps the word as it was written.
pub open spec fn word_token(word: Seq<char>) -> TokenView {
    TokenView { kind: word_kind(lowercase_of(word)), text: Some(word) }
}

impl TokenType {
    /// Classifies a word that is already in lowercase.
    pub fn from_lowercase(lower: &str) -> (r: TokenType)
        ensures
            r == word_kind(lower@),
    {
        if same_text(lower, "label") {
            TokenType::LABEL
        } else if same_text(lower, "goto") {
            TokenType::GOTO
        } else if same_text(lower, "print") {
            TokenType::PRINT
        } else if same_text(lower, "input") {
            TokenType::INPUT
        } else if same_text(lower, "let") {
            TokenType::LET
        } else if same_text(lower, "if") {
            TokenType::IF
        } else if same_text(lower, "then") {
            TokenType::THEN
        } else if same_text(lower, "endif") {
            TokenType::ENDIF
        } else if same_text(lower, "while") {
            TokenType::WHILE
        } else if same_text(lower, "repeat") {
            TokenType::REPEAT
        } else if same_text(lower, "endwhile") {
            TokenType::ENDWHILE
        } else {
            TokenType::IDENT
        }
    }

    /// Turns a word into its token: a keyword where the word, in any case, spells one, and
    /// an identifier otherwise.
    pub fn from_string(input: String) -> (r: Token)
        ensures
            r@ == word_token(input@),
    {
        let lower = input.as_str().to_lowercase();
        let token_type = TokenType::from_lowercase(lower.as_str());
        Token::new(Some(input), token_type)
    }

    /// Whether a statement can begin with a token of this kind.
    pub fn begins_statement(self) -> (r: bool)
        ensures
            r == begins_statement(self),
    {
        self == TokenType::PRINT || self == TokenType::IF || self == TokenType::WHILE || self
            == TokenType::LABEL || self == TokenType::GOTO || self == TokenType::LET || self
            == TokenType::INPUT
    }

    /// Whether this kind is one of the six relational operators.
    pub fn is_relational(self) -> (r: bool)
        ensures
            r == is_relational_kind(self),
    {
        self == TokenType::GT || self == TokenType::LT || self == TokenType::GTEQ || self
            == TokenType::LTEQ || self == TokenType::EQEQ || self == TokenType::NOTEQ
    }
}

/// The kinds of token that a statement can begin with.
pub open spec fn begins_statement(kind: TokenType) -> bool {
    kind == TokenType::PRINT || kind == TokenType::IF || kind == TokenType::WHILE || kind
        == TokenType::LABEL || kind == TokenType::GOTO || kind == TokenType::LET || kind
        == TokenType::INPUT
}

/// The six relational operators.
pub open spec fn is_relational_kind(kind: TokenType) -> bool {
    kind == TokenType::GT || kind == TokenType::LT || kind == TokenType::GTEQ || kind
        == TokenType::LTEQ || kind == TokenType::EQEQ || kind == TokenType::NOTEQ
}

} // verus!
