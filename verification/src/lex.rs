//! The lexer: a cursor over the source text that hands out one token at a time.
use vstd::prelude::*;
use crate::error::LexicalError;
use crate::text::{
    belongs, char_at, classify, in_class, is_alphabetic_char, leading, lemma_run_end, run_end,
    spec_char_at, CharClass, Leading,
};
use crate::token::{word_token, Token, TokenType, TokenView};

verus! {

/// What one call for a token finds at a position of a text.
pub enum Scan {
    /// A token; the cursor comes to rest at `next`.
    Token { token: TokenView, next: int },
    /// No token: the text has ended, or a character starts none.
    Nothing { next: int },
    /// The text is malformed.
    Fatal { error: LexicalError },
}

/// Where the next token starts: after the blanks at `from` and, if a `#` follows them, after
/// the comment, which runs up to the line break.
pub open spec fn token_start(text: Seq<char>, from: int) -> int {
    let after_blanks = run_end(text, from, CharClass::Blank);
    if spec_char_at(text, after_blanks) == Some('#') {
        run_end(text, after_blanks, CharClass::Comment)
    } else {
        after_blanks
    }
}

/// A token of `kind` that keeps the `length` characters at `at` as its text.
pub open spec fn spelled(text: Seq<char>, at: int, length: int, kind: TokenType) -> Scan {
    Scan::Token {
        token: TokenView { kind, text: Some(text.subrange(at, at + length)) },
        next: at + length,
    }
}

/// The string literal whose opening quote stands at `at`: its text is what stands between
/// the quotes. A forbidden character or the end of the text before the closing quote is an
/// error.
pub open spec fn literal_at(text: Seq<char>, at: int) -> Scan {
    let end = run_end(text, at + 1, CharClass::Literal);
    if end >= text.len() {
        Scan::Fatal { error: LexicalError::UnterminatedString { position: at as i64 } }
    } else if text[end] == '"' {
        Scan::Token {
            token: TokenView { kind: TokenType::STRING, text: Some(text.subrange(at + 1, end)) },
            next: end + 1,
        }
    } else {
        Scan::Fatal {
            error: LexicalError::InvalidStringCharacter { found: text[end], position: end as i64 },
        }
    }
}

/// The token that starts with the character at `at`, by the first rule that applies:
/// a digit starts a number, a maximal run of digits and points; an alphabetic character
/// starts a word, a maximal run of alphabetic characters; then come the operators, of which
/// `=`, `>`, `<` and `!` look one character ahead for a `=`; the quote that opens a string;
/// the end-of-input character, after which the cursor rests at the end of the text, so that
/// no token follows the end-of-input token; and the line break. Any other character starts
/// no token, and the cursor stays on it.
pub open spec fn token_at(text: Seq<char>, at: int) -> Scan
    recommends
        0 <= at < text.len(),
{
    let c = text[at];
    let before_eq = spec_char_at(text, at + 1) == Some('=');
    if leading(c, is_alphabetic_char(c)) == Leading::Number {
        spelled(text, at, run_end(text, at, CharClass::Number) - at, TokenType::NUMBER)
    } else if leading(c, is_alphabetic_char(c)) == Leading::Word {
        let end = run_end(text, at, CharClass::Letter);
        Scan::Token { token: word_token(text.subrange(at, end)), next: end }
    } else if c == '+' {
        spelled(text, at, 1, TokenType::PLUS)
    } else if c == '-' {
        spelled(text, at, 1, TokenType::MINUS)
    } else if c == '/' {
        spelled(text, at, 1, TokenType::SLASH)
    } else if c == '*' {
        spelled(text, at, 1, TokenType::ASTERISK)
    } else if c == '=' {
        if before_eq {
            Scan::Token { token: TokenView { kind: TokenType::EQEQ, text: None }, next: at + 2 }
        } else {
            spelled(text, at, 1, TokenType::EQ)
        }
    } else if c == '>' {
        if before_eq {
            spelled(text, at, 2, TokenType::GTEQ)
        } else {
            spelled(text, at, 1, TokenType::GT)
        }
    } else if c == '!' {
        if before_eq {
            spelled(text, at, 2, TokenType::NOTEQ)
        } else {
            Scan::Fatal { error: LexicalError::LoneBang { position: at as i64 } }
        }
    } else if c == '<' {
        if before_eq {
            spelled(text, at, 2, TokenType::LTEQ)
        } else {
            spelled(text, at, 1, TokenType::LT)
        }
    } else if c == '"' {
        literal_at(text, at)
    } else if c == '\0' {
        Scan::Token {
            token: TokenView { kind: TokenType::EOF, text: None },
            next: text.len() as int,
        }
    } else if c == '\n' {
        spelled(text, at, 1, TokenType::NEWLINE)
    } else {
        Scan::Nothing { next: at }
    }
}

/// What a call for a token finds with the cursor at `from`. Blanks and a comment are passed
/// over first. Past the end of the text there is no token, and the cursor moves on by one.
#[verifier::opaque]
pub open spec fn scan(text: Seq<char>, from: int) -> Scan {
    let start = token_start(text, from);
    if 0 <= start < text.len() {
        token_at(text, start)
    } else {
        Scan::Nothing { next: start + 1 }
    }
}

/// A token ends after the position it was asked for at, inside the text. Where there is no
/// token, the cursor has not moved back, and has passed the end of the text by one at most.
pub proof fn lemma_scan_moves_forward(text: Seq<char>, from: int)
    requires
        0 <= from,
    ensures
        match scan(text, from) {
            Scan::Token { token, next } => from < next <= text.len(),
            Scan::Nothing { next } => from <= next && (next <= text.len() + 1 || next == from
                + 1),
            Scan::Fatal { error } => true,
        },
{
    reveal(scan);
    let after_blanks = run_end(text, from, CharClass::Blank);
    lemma_run_end(text, from, CharClass::Blank);
    lemma_run_end(text, after_blanks, CharClass::Comment);
    let start = token_start(text, from);
    if 0 <= start < text.len() {
        lemma_run_end(text, start, CharClass::Number);
        lemma_run_end(text, start, CharClass::Letter);
        lemma_run_end(text, start + 1, CharClass::Literal);
    }
}

/// Where the cursor rests after a lexical error in `text`: on the character that is to
/// blame, or at the end of the text if the text ended too early.
pub open spec fn rests_at(error: LexicalError, text: Seq<char>) -> int {
    match error {
        LexicalError::LoneBang { position } => position as int,
        LexicalError::InvalidStringCharacter { found, position } => position as int,
        LexicalError::UnrecognizedCharacter { found, position } => position as int,
        LexicalError::UnterminatedString { position } => text.len() as int,
        LexicalError::EndOfText { position } => text.len() as int,
    }
}

/// Whether `result`, with the cursor left at `cursor`, is what was found in `text`: the
/// token and the place after it, no token and the place where that showed, or the error
/// and the place where it was met.
pub open spec fn hands_out(
    found: Scan,
    text: Seq<char>,
    result: Result<Option<Token>, LexicalError>,
    cursor: int,
) -> bool {
    match found {
        Scan::Token { token, next } => result matches Ok(Some(t)) && t@ == token && cursor == next,
        Scan::Nothing { next } => result == Ok::<Option<Token>, LexicalError>(None) && cursor
            == next,
        Scan::Fatal { error } => result == Err::<Option<Token>, LexicalError>(error) && cursor
            == rests_at(error, text),
    }
}

/// A cursor over a source text.
pub struct Lexer {
    pub data: String,
    pub current_pos: i64,
    pub current_char: Option<char>,
}

impl Lexer {
    /// The cursor is at or after the start of the text, `current_char` is the character under
    /// it (none past the end), and the text is short enough for the cursor to pass its end.
    pub open spec fn wf(&self) -> bool {
        &&& 0 <= self.current_pos
        &&& self.data@.len() < i64::MAX
        &&& self.current_char == spec_char_at(self.data@, self.current_pos as int)
    }

    /// A lexer with its cursor on the first character of `data`.
    pub fn new(data: String) -> (r: Self)
        requires
            data@.len() < i64::MAX,
        ensures
            r.wf(),
            r.data == data,
            r.current_pos == 0,
    {
        let current_char = char_at(&data, 0);
        Lexer { data, current_pos: 0, current_char }
    }

    /// Moves the cursor forward by one character.
    pub fn next_char(&mut self)
        requires
            old(self).wf(),
            old(self).current_pos < i64::MAX,
        ensures
            final(self).wf(),
            final(self).data == old(self).data,
            final(self).current_pos == old(self).current_pos + 1,
    {
        self.current_pos += 1;
        self.current_char = char_at(&self.data, self.current_pos);
    }

    /// The character after the one under the cursor, if the text reaches that far.
    pub fn peek(&self) -> (r: Option<char>)
        requires
            self.wf(),
        ensures
            r == spec_char_at(self.data@, self.current_pos + 1),
    {
        if self.current_pos == i64::MAX {
            None
        } else {
            char_at(&self.data, self.current_pos + 1)
        }
    }

    /// Hands out the next token and moves the cursor past it. `Ok(None)` means that there
    /// is no token here: the text has ended, or the cursor rests on a character that starts
    /// none.
    pub fn get_token(&mut self) -> (r: Result<Option<Token>, LexicalError>)
        requires
            old(self).wf(),
            old(self).current_pos < i64::MAX,
        ensures
            final(self).wf(),
            final(self).data == old(self).data,
            old(self).current_pos <= final(self).current_pos,
            final(self).current_pos <= old(self).data@.len() + 1 || final(self).current_pos
                == old(self).current_pos + 1,
            hands_out(
                scan(old(self).data@, old(self).current_pos as int),
                old(self).data@,
                r,
                final(self).current_pos as int,
            ),
    {
        self.skip_whitespace();
        self.skip_comment();
        let ghost text = self.data@;
        let ghost at = self.current_pos as int;
        proof {
            reveal(scan);
            lemma_scan_moves_forward(text, old(self).current_pos as int);
            lemma_run_end(text, old(self).current_pos as int, CharClass::Blank);
            lemma_run_end(
                text,
                run_end(text, old(self).current_pos as int, CharClass::Blank),
                CharClass::Comment,
            );
        }
        assert(at == token_start(text, old(self).current_pos as int));
        let c = match self.current_char {
            Some(c) => c,
            None => {
                self.next_char();
                return Ok(None);
            },
        };
        match classify(c, c.is_alphabetic()) {
            Leading::Number => {
                let number = self.get_number();
                return Ok(Some(Token::new(Some(number), TokenType::NUMBER)));
            },
            Leading::Word => {
                return Ok(Some(self.get_keyword_token()));
            },
            Leading::Other => {},
        }
        let before_eq = match self.peek() {
            Some(n) => n == '=',
            None => false,
        };
        let token = if c == '+' {
            Token::new(Some(one_char(c)), TokenType::PLUS)
        } else if c == '-' {
            Token::new(Some(one_char(c)), TokenType::MINUS)
        } else if c == '/' {
            Token::new(Some(one_char(c)), TokenType::SLASH)
        } else if c == '*' {
            Token::new(Some(one_char(c)), TokenType::ASTERISK)
        } else if c == '=' {
            if before_eq {
                self.next_char();
                Token::new(None, TokenType::EQEQ)
            } else {
                Token::new(Some(one_char(c)), TokenType::EQ)
            }
        } else if c == '>' {
            if before_eq {
                self.next_char();
                Token::new(Some(two_chars(c, '=')), TokenType::GTEQ)
            } else {
                Token::new(Some(one_char(c)), TokenType::GT)
            }
        } else if c == '!' {
            if before_eq {
                self.next_char();
                Token::new(Some(two_chars(c, '=')), TokenType::NOTEQ)
            } else {
                return Err(LexicalError::LoneBang { position: self.current_pos });
            }
        } else if c == '<' {
            if before_eq {
                self.next_char();
                Token::new(Some(two_chars(c, '=')), TokenType::LTEQ)
            } else {
                Token::new(Some(one_char(c)), TokenType::LT)
            }
        } else if c == '"' {
            match self.get_string() {
                Ok(literal) => Token::new(Some(literal), TokenType::STRING),
                Err(error) => {
                    return Err(error);
                },
            }
        } else if c == '\0' {
            self.go_to_end();
            return Ok(Some(Token::new(None, TokenType::EOF)));
        } else if c == '\n' {
            Token::new(Some(one_char(c)), TokenType::NEWLINE)
        } else {
            return Ok(None);
        };
        proof {
            assert(text.subrange(at, at + 1) =~= seq![c]);
            if before_eq {
                assert(text.subrange(at, at + 2) =~= seq![c, '=']);
            }
        }
        self.next_char();
        Ok(Some(token))
    }

    /// Moves the cursor to the end of the text.
    fn go_to_end(&mut self)
        requires
            old(self).wf(),
            old(self).current_pos <= old(self).data@.len(),
        ensures
            final(self).wf(),
            final(self).data == old(self).data,
            final(self).current_pos == old(self).data@.len(),
    {
        let length: usize = self.data.as_str().unicode_len();
        self.current_pos = length as i64;
        self.current_char = None;
    }

    /// Whether the cursor rests on a character of `class`.
    fn at(&self, class: CharClass) -> (r: bool)
        ensures
            r == (self.current_char matches Some(c) && in_class(class, c)),
    {
        match self.current_char {
            Some(c) => belongs(class, c, c.is_alphabetic()),
            None => false,
        }
    }

    /// Moves the cursor past the blanks it rests on.
    fn skip_whitespace(&mut self)
        requires
            old(self).wf(),
        ensures
            final(self).wf(),
            final(self).data == old(self).data,
            final(self).current_pos == run_end(
                old(self).data@,
                old(self).current_pos as int,
                CharClass::Blank,
            ),
    {
        while self.at(CharClass::Blank)
            invariant
                self.wf(),
                self.data == old(self).data,
                run_end(self.data@, self.current_pos as int, CharClass::Blank) == run_end(
                    old(self).data@,
                    old(self).current_pos as int,
                    CharClass::Blank,
                ),
            decreases self.data@.len() - self.current_pos,
        {
            self.next_char();
        }
    }

    /// Moves the cursor from the `#` that opens a comment to the line break that ends it.
    fn skip_comment(&mut self)
        requires
            old(self).wf(),
        ensures
            final(self).wf(),
            final(self).data == old(self).data,
            final(self).current_pos == (if old(self).current_char == Some('#') {
                run_end(old(self).data@, old(self).current_pos as int, CharClass::Comment)
            } else {
                old(self).current_pos as int
            }),
    {
        if self.current_char == Some('#') {
            while self.at(CharClass::Comment)
                invariant
                    self.wf(),
                    self.data == old(self).data,
                    run_end(self.data@, self.current_pos as int, CharClass::Comment) == run_end(
                        old(self).data@,
                        old(self).current_pos as int,
                        CharClass::Comment,
                    ),
                decreases self.data@.len() - self.current_pos,
            {
                self.next_char();
            }
        }
    }

    /// Collects the characters of `class` from the cursor on and leaves the cursor after
    /// them.
    fn take_run(&mut self, class: CharClass) -> (r: String)
        requires
            old(self).wf(),
            old(self).current_pos <= old(self).data@.len(),
        ensures
            final(self).wf(),
            final(self).data == old(self).data,
            final(self).current_pos == run_end(
                old(self).data@,
                old(self).current_pos as int,
                class,
            ),
            r@ == old(self).data@.subrange(
                old(self).current_pos as int,
                final(self).current_pos as int,
            ),
    {
        let mut run = String::new();
        let ghost text = self.data@;
        let ghost start = self.current_pos as int;
        assert(run@ =~= text.subrange(start, start));
        while self.at(class)
            invariant
                self.wf(),
                self.data == old(self).data,
                text == self.data@,
                start == old(self).current_pos,
                0 <= start <= self.current_pos <= text.len(),
                run_end(text, self.current_pos as int, class) == run_end(text, start, class),
                run@ == text.subrange(start, self.current_pos as int),
            decreases self.data@.len() - self.current_pos,
        {
            let c = self.current_char.unwrap();
            run.push(c);
            assert(text.subrange(start, self.current_pos as int).push(c) =~= text.subrange(
                start,
                self.current_pos + 1,
            ));
            self.next_char();
        }
        run
    }

    /// Reads the string literal whose opening quote is under the cursor and leaves the
    /// cursor on the closing quote.
    fn get_string(&mut self) -> (r: Result<String, LexicalError>)
        requires
            old(self).wf(),
            old(self).current_char == Some('"'),
        ensures
            final(self).wf(),
            final(self).data == old(self).data,
            old(self).current_pos < final(self).current_pos <= old(self).data@.len(),
            match literal_at(old(self).data@, old(self).current_pos as int) {
                Scan::Token { token, next } => r matches Ok(s) && Some(s@) == token.text
                    && final(self).current_pos + 1 == next,
                Scan::Nothing { next } => false,
                Scan::Fatal { error } => r == Err::<String, LexicalError>(error) && final(self).current_pos == rests_at(error, old(self).data@),
            },
    {
        let start = self.current_pos;
        self.next_char();
        proof {
            lemma_run_end(self.data@, start + 1, CharClass::Literal);
        }
        let string_val = self.take_run(CharClass::Literal);
        match self.current_char {
            None => Err(LexicalError::UnterminatedString { position: start }),
            Some(c) => if c == '"' {
                Ok(string_val)
            } else {
                Err(LexicalError::InvalidStringCharacter { found: c, position: self.current_pos })
            },
        }
    }

    /// Reads the number that starts under the cursor.
    fn get_number(&mut self) -> (r: String)
        requires
            old(self).wf(),
            old(self).current_pos <= old(self).data@.len(),
        ensures
            final(self).wf(),
            final(self).data == old(self).data,
            final(self).current_pos == run_end(
                old(self).data@,
                old(self).current_pos as int,
                CharClass::Number,
            ),
            r@ == old(self).data@.subrange(
                old(self).current_pos as int,
                final(self).current_pos as int,
            ),
    {
        self.take_run(CharClass::Number)
    }

    /// Reads the word that starts under the cursor and classifies it.
    fn get_keyword_token(&mut self) -> (r: Token)
        requires
            old(self).wf(),
            old(self).current_pos <= old(self).data@.len(),
        ensures
            final(self).wf(),
            final(self).data == old(self).data,
            final(self).current_pos == run_end(
                old(self).data@,
                old(self).current_pos as int,
                CharClass::Letter,
            ),
            r@ == word_token(
                old(self).data@.subrange(
                    old(self).current_pos as int,
                    final(self).current_pos as int,
                ),
            ),
    {
        let word = self.take_run(CharClass::Letter);
        TokenType::from_string(word)
    }
}

/// The text that holds `c` and nothing else.
fn one_char(c: char) -> (r: String)
    ensures
        r@ == seq![c],
{
    let mut text = String::new();
    text.push(c);
    assert(text@ =~= seq![c]);
    text
}

/// The text that holds `first` and then `second`.
fn two_chars(first: char, second: char) -> (r: String)
    ensures
        r@ == seq![first, second],
{
    let mut text = String::new();
    text.push(first);
    text.push(second);
    assert(text@ =~= seq![first, second]);
    text
}

} // verus!
