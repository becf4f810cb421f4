//! The grammar and its translation, as a mathematical model of the parser.
//!
//! A [`ParserState`] holds everything a parse depends on. Each production is a function
//! from the state before it to the state after it. A failure is recorded in the state, and
//! nothing changes a state that holds one: the first failure is the one that is reported,
//! and the names and the output are those of the moment at which it was met.
//!
//! A repetition goes on while its last round has consumed a token. Every round does, as
//! [`crate::progress`] shows, so the repetitions are those of the grammar.
//!
//! ```text
//! program     := {line-break} {statement}
//! statement   := PRINT (STRING | expression) nl
//!              | IF comparison THEN nl {statement} ENDIF nl
//!              | WHILE comparison REPEAT nl {statement} ENDWHILE nl
//!              | LABEL IDENT nl
//!              | GOTO IDENT nl
//!              | LET IDENT '=' expression nl
//!              | INPUT IDENT nl
//! nl          := line-break {line-break}
//! comparison  := expression relop expression {relop expression}
//! expression  := term {('+'|'-') term}
//! term        := unary {('*'|'/') unary}
//! unary       := [('+'|'-')] primary
//! primary     := NUMBER | IDENT
//! ```
use vstd::prelude::*;
use crate::error::{Failure, LexicalError, SemanticFailure, SyntaxError};
use crate::lex::{scan, Scan};
use crate::token::{begins_statement, is_relational_kind, TokenType, TokenView};

verus! {

/// The text that a token contributes to the output: its own text, or `==` for the
/// operator that carries none.
pub open spec fn spelling(token: TokenView) -> Seq<char> {
    match token.text {
        Some(text) => text,
        None => if token.kind == TokenType::EQEQ {
            "=="@
        } else {
            Seq::empty()
        },
    }
}

/// The call that prints a string literal and a line break.
pub open spec fn print_text_call(literal: Seq<char>) -> Seq<char> {
    "printf(\""@ + literal + "\\n\");"@
}

/// The start of the call that prints a value.
pub open spec fn print_value_open() -> Seq<char> {
    "printf(\"%.2f\\n\", (float)("@
}

/// The declaration of a variable.
pub open spec fn declaration(name: Seq<char>) -> Seq<char> {
    "float "@ + name + ";"@
}

/// The start of an assignment to a variable.
pub open spec fn assignment_head(name: Seq<char>) -> Seq<char> {
    name + " = "@
}

/// The jump to a label.
pub open spec fn goto_line(name: Seq<char>) -> Seq<char> {
    "goto "@ + name + ";"@
}

/// The first two lines of reading a variable: the read itself, and the fallback to zero
/// when the input is no number.
pub open spec fn input_guard(name: Seq<char>) -> Seq<char> {
    "if(0 == scanf(\"%f\", &"@ + name + ")) {\n"@ + name + " = 0;"@
}

/// The first of `gotos` that is not among `labels`, if there is one.
pub open spec fn first_unresolved(gotos: Seq<Seq<char>>, labels: Seq<Seq<char>>) -> Option<
    Seq<char>,
>
    decreases gotos.len(),
{
    if gotos.len() == 0 {
        None
    } else if !labels.contains(gotos[0]) {
        Some(gotos[0])
    } else {
        first_unresolved(gotos.drop_first(), labels)
    }
}

/// All that a parse depends on and changes.
pub struct ParserState {
    /// The source text.
    pub text: Seq<char>,
    /// The position of the lexer's cursor in it.
    pub cursor: int,
    /// The token under consideration.
    pub current: Option<TokenView>,
    /// The token after it.
    pub peek: Option<TokenView>,
    /// The variables declared so far, in the order of their first `LET` or `INPUT`.
    pub variables: Seq<Seq<char>>,
    /// The labels declared so far.
    pub labels: Seq<Seq<char>>,
    /// The labels that a `GOTO` has named so far.
    pub gotos: Seq<Seq<char>>,
    /// Where the output is meant to go.
    pub path: Seq<char>,
    /// The prologue segment of the output.
    pub prologue: Seq<char>,
    /// The body segment of the output.
    pub body: Seq<char>,
    /// The failure that ended the parse, if one did.
    pub failure: Option<Failure>,
}

impl ParserState {
    /// The state before the first token is asked for: the lexer's cursor at `cursor`, an
    /// empty window, no names.
    pub open spec fn fresh(
        text: Seq<char>,
        cursor: int,
        path: Seq<char>,
        prologue: Seq<char>,
        body: Seq<char>,
    ) -> Self {
        ParserState {
            text,
            cursor,
            current: None,
            peek: None,
            variables: Seq::empty(),
            labels: Seq::empty(),
            gotos: Seq::empty(),
            path,
            prologue,
            body,
            failure: None,
        }
    }

    /// The state without a text: no names, no output.
    pub open spec fn blank() -> Self {
        Self::fresh(Seq::empty(), 0, Seq::empty(), Seq::empty(), Seq::empty())
    }

    /// The state in which the parse of `text` begins: the first two tokens in the window,
    /// and nothing emitted.
    pub open spec fn start(text: Seq<char>) -> Self {
        Self::fresh(text, 0, Seq::empty(), Seq::empty(), Seq::empty()).advance().advance()
    }

    /// The generated text: the prologue, then the body.
    pub open spec fn artifact(self) -> Seq<char> {
        self.prologue + self.body
    }

    /// Whether a failure has ended the parse.
    pub open spec fn failed(self) -> bool {
        self.failure is Some
    }

    /// The state with `failure` recorded.
    pub open spec fn fail(self, failure: Failure) -> Self {
        ParserState { failure: Some(failure), ..self }
    }

    /// The kind of the current token.
    pub open spec fn kind(self) -> TokenType
        recommends
            self.current is Some,
    {
        self.current->0.kind
    }

    /// The output text of the current token.
    pub open spec fn word(self) -> Seq<char>
        recommends
            self.current is Some,
    {
        spelling(self.current->0)
    }

    /// A bound on the tokens still to come: the characters that the lexer has not passed,
    /// and the tokens in the lookahead window.
    pub open spec fn remaining(self) -> nat {
        let unread: int = if self.cursor < self.text.len() {
            self.text.len() - self.cursor
        } else {
            0
        };
        let current: int = if self.current is Some {
            1
        } else {
            0
        };
        let peek: int = if self.peek is Some {
            1
        } else {
            0
        };
        (unread + current + peek) as nat
    }

    /// Whether this state is a successor of `before` that has consumed something.
    pub open spec fn progressed(self, before: Self) -> bool {
        !self.failed() && self.remaining() < before.remaining()
    }

    /// Appends `code` to the body. Nothing is emitted after a failure.
    pub open spec fn emit(self, code: Seq<char>) -> Self {
        if self.failed() {
            self
        } else {
            ParserState { body: self.body + code, ..self }
        }
    }

    /// Appends `code` and a line break to the body. Nothing is emitted after a failure.
    pub open spec fn emit_line(self, code: Seq<char>) -> Self {
        if self.failed() {
            self
        } else {
            ParserState { body: (self.body + code).push('\n'), ..self }
        }
    }

    /// Appends `code` and a line break to the prologue. Nothing is emitted after a failure.
    pub open spec fn header_line(self, code: Seq<char>) -> Self {
        if self.failed() {
            self
        } else {
            ParserState { prologue: (self.prologue + code).push('\n'), ..self }
        }
    }

    /// The failure for a token that is needed and not there: the lexer rests on a
    /// character that starts no token, or has run out of text.
    pub open spec fn missing_token(self) -> Failure {
        if 0 <= self.cursor < self.text.len() {
            Failure::Lexical(
                LexicalError::UnrecognizedCharacter {
                    found: self.text[self.cursor],
                    position: self.cursor as i64,
                },
            )
        } else {
            Failure::Lexical(LexicalError::EndOfText { position: self.cursor as i64 })
        }
    }

    /// Every production looks at the current token first, and fails if there is none.
    pub open spec fn need_token(self) -> Self {
        if self.failed() || self.current is Some {
            self
        } else {
            self.fail(self.missing_token())
        }
    }

    /// Moves the window on by one token: the peek token becomes the current one, and the
    /// lexer supplies the next peek token.
    pub open spec fn advance(self) -> Self {
        if self.failed() {
            self
        } else {
            match scan(self.text, self.cursor) {
                Scan::Token { token, next } => ParserState {
                    current: self.peek,
                    peek: Some(token),
                    cursor: next,
                    ..self
                },
                Scan::Nothing { next } => ParserState {
                    current: self.peek,
                    peek: None,
                    cursor: next,
                    ..self
                },
                Scan::Fatal { error } => self.fail(Failure::Lexical(error)),
            }
        }
    }

    /// Requires the current token to be of `kind`, and moves past it.
    pub open spec fn expect(self, kind: TokenType) -> Self {
        let s = self.need_token();
        if s.failed() {
            s
        } else if s.kind() != kind {
            s.fail(Failure::Syntax(SyntaxError::Expected { expected: kind, found: s.kind() }))
        } else {
            s.advance()
        }
    }

    /// Copies the current token to the output and moves past it.
    pub open spec fn copy_token(self) -> Self {
        self.emit(self.word()).advance()
    }

    /// `nl := line-break {line-break}`
    pub open spec fn line_end(self) -> Self {
        self.expect(TokenType::NEWLINE).line_breaks()
    }

    /// `{line-break}`
    pub open spec fn line_breaks(self) -> Self
        decreases self.remaining(),
    {
        let s = self.need_token();
        if s.failed() || s.kind() != TokenType::NEWLINE {
            s
        } else if s.advance().progressed(self) {
            s.advance().line_breaks()
        } else {
            s.advance()
        }
    }

    /// `primary := NUMBER | IDENT`, where the identifier must be a declared variable.
    pub open spec fn primary(self) -> Self {
        let s = self.need_token();
        if s.failed() {
            s
        } else if s.kind() == TokenType::NUMBER {
            s.copy_token()
        } else if s.kind() == TokenType::IDENT {
            if s.variables.contains(s.word()) {
                s.copy_token()
            } else {
                s.fail(Failure::Semantic(SemanticFailure::UndeclaredVariable { name: s.word() }))
            }
        } else {
            s.fail(Failure::Syntax(SyntaxError::ExpectedPrimary { found: s.kind() }))
        }
    }

    /// `unary := [('+'|'-')] primary`
    pub open spec fn unary(self) -> Self {
        let s = self.need_token();
        if s.failed() {
            s
        } else if s.kind() == TokenType::PLUS || s.kind() == TokenType::MINUS {
            s.copy_token().primary()
        } else {
            s.primary()
        }
    }

    /// `{('*'|'/') unary}`
    pub open spec fn factors(self) -> Self
        decreases self.remaining(),
    {
        let s = self.need_token();
        if s.failed() || !(s.kind() == TokenType::ASTERISK || s.kind() == TokenType::SLASH) {
            s
        } else if s.copy_token().unary().progressed(self) {
            s.copy_token().unary().factors()
        } else {
            s.copy_token().unary()
        }
    }

    /// `term := unary {('*'|'/') unary}`
    pub open spec fn term(self) -> Self {
        self.unary().factors()
    }

    /// `{('+'|'-') term}`
    pub open spec fn summands(self) -> Self
        decreases self.remaining(),
    {
        let s = self.need_token();
        if s.failed() || !(s.kind() == TokenType::PLUS || s.kind() == TokenType::MINUS) {
            s
        } else if s.copy_token().term().progressed(self) {
            s.copy_token().term().summands()
        } else {
            s.copy_token().term()
        }
    }

    /// `expression := term {('+'|'-') term}`
    #[verifier::opaque]
    pub open spec fn expression(self) -> Self {
        self.term().summands()
    }

    /// `{relop expression}`
    pub open spec fn comparands(self) -> Self
        decreases self.remaining(),
    {
        let s = self.need_token();
        if s.failed() || !is_relational_kind(s.kind()) {
            s
        } else if s.copy_token().expression().progressed(self) {
            s.copy_token().expression().comparands()
        } else {
            s.copy_token().expression()
        }
    }

    /// `comparison := expression relop expression {relop expression}`. Each operator is
    /// copied as it stands, so a chain of comparisons stays a chain in the output.
    #[verifier::opaque]
    pub open spec fn comparison(self) -> Self {
        let s = self.expression().need_token();
        if s.failed() {
            s
        } else if is_relational_kind(s.kind()) {
            s.copy_token().expression().comparands()
        } else {
            s.fail(Failure::Syntax(SyntaxError::ExpectedComparison { found: s.kind() }))
        }
    }

    /// Requires the current token to be an identifier.
    pub open spec fn need_name(self) -> Self {
        let s = self.need_token();
        if s.failed() || s.kind() == TokenType::IDENT {
            s
        } else {
            s.fail(
                Failure::Syntax(
                    SyntaxError::Expected { expected: TokenType::IDENT, found: s.kind() },
                ),
            )
        }
    }

    /// Makes `name` a variable: the first time, it joins the declared variables and its
    /// declaration joins the prologue.
    pub open spec fn declare(self, name: Seq<char>) -> Self {
        if self.failed() || self.variables.contains(name) {
            self
        } else {
            ParserState { variables: self.variables.push(name), ..self }.header_line(
                declaration(name),
            )
        }
    }

    /// Makes `name` a declared label.
    pub open spec fn label(self, name: Seq<char>) -> Self {
        if self.failed() {
            self
        } else {
            ParserState { labels: self.labels.push(name), ..self }
        }
    }

    /// Records that a `GOTO` names `name`.
    pub open spec fn refer(self, name: Seq<char>) -> Self {
        if self.failed() || self.gotos.contains(name) {
            self
        } else {
            ParserState { gotos: self.gotos.push(name), ..self }
        }
    }

    /// `PRINT (STRING | expression)`, from the token after `PRINT` on.
    pub open spec fn print_rest(self) -> Self {
        let s = self.need_token();
        if s.failed() {
            s
        } else if s.kind() == TokenType::STRING {
            s.emit_line(print_text_call(s.word())).advance()
        } else {
            s.emit(print_value_open()).expression().emit_line("));"@)
        }
    }

    /// `LABEL IDENT`, from the identifier on. A label may be declared once.
    pub open spec fn label_rest(self) -> Self {
        let s = self.need_name();
        if s.failed() {
            s
        } else if s.labels.contains(s.word()) {
            s.fail(Failure::Semantic(SemanticFailure::DuplicateLabel { name: s.word() }))
        } else {
            s.label(s.word()).emit(s.word()).emit_line(":"@).advance()
        }
    }

    /// `GOTO IDENT`, from the identifier on. The label need not be declared yet.
    pub open spec fn goto_rest(self) -> Self {
        let s = self.need_name();
        if s.failed() {
            s
        } else {
            s.refer(s.word()).emit_line(goto_line(s.word())).advance()
        }
    }

    /// `LET IDENT '=' expression`, from the identifier on.
    pub open spec fn let_rest(self) -> Self {
        let s = self.need_name();
        if s.failed() {
            s
        } else {
            s.declare(s.word()).emit(assignment_head(s.word())).advance().expect(
                TokenType::EQ,
            ).expression().emit_line(";"@)
        }
    }

    /// `INPUT IDENT`, from the identifier on.
    pub open spec fn input_rest(self) -> Self {
        let s = self.need_name();
        if s.failed() {
            s
        } else {
            s.declare(s.word()).emit_line(input_guard(s.word())).emit("scanf(\"%"@).emit_line(
                "*s\");"@,
            ).emit_line("}"@).advance()
        }
    }

    /// The head of a block statement, from the token after `IF` or `WHILE` on:
    /// `comparison THEN nl` or `comparison REPEAT nl`.
    #[verifier::opaque]
    pub open spec fn block_head(self, opening: Seq<char>, separator: TokenType) -> Self {
        self.emit(opening).comparison().expect(separator).line_end().emit_line("){"@)
    }

    /// `{statement}`: statements as long as the current token begins one. The token that
    /// begins none is left in place, for what follows to judge.
    pub open spec fn block(self) -> Self
        decreases self.remaining(), 1nat,
    {
        let s = self.need_token();
        if s.failed() || !begins_statement(s.kind()) {
            s
        } else if s.statement().progressed(self) {
            s.statement().block()
        } else {
            s.statement()
        }
    }

    /// A statement of one line, without the line breaks that end it.
    #[verifier::opaque]
    pub open spec fn simple_statement(self) -> Self
        recommends
            self.current is Some,
    {
        match self.kind() {
            TokenType::PRINT => self.advance().print_rest(),
            TokenType::LABEL => self.advance().label_rest(),
            TokenType::GOTO => self.advance().goto_rest(),
            TokenType::LET => self.advance().let_rest(),
            TokenType::INPUT => self.advance().input_rest(),
            _ => self.fail(Failure::Syntax(SyntaxError::ExpectedStatement { found: self.kind() })),
        }
    }

    /// One statement with the line breaks that end it.
    pub open spec fn statement(self) -> Self
        decreases self.remaining(), 0nat,
    {
        let s = self.need_token();
        if s.failed() {
            s
        } else if s.kind() == TokenType::IF {
            let head = s.advance().block_head("if("@, TokenType::THEN);
            if head.progressed(self) {
                head.block().expect(TokenType::ENDIF).emit_line("}"@).line_end()
            } else {
                head
            }
        } else if s.kind() == TokenType::WHILE {
            let head = s.advance().block_head("while("@, TokenType::REPEAT);
            if head.progressed(self) {
                head.block().expect(TokenType::ENDWHILE).emit_line("}"@).line_end()
            } else {
                head
            }
        } else {
            s.simple_statement().line_end()
        }
    }

    /// Fails if a `GOTO` has named a label that was never declared.
    pub open spec fn resolve_gotos(self) -> Self {
        if self.failed() {
            self
        } else {
            match first_unresolved(self.gotos, self.labels) {
                Some(name) => self.fail(
                    Failure::Semantic(SemanticFailure::UnresolvedGoto { name }),
                ),
                None => self,
            }
        }
    }

    /// The end of the statements of a program: the end of the input, and nothing else.
    pub open spec fn end_of_input(self) -> Self {
        let s = self.need_token();
        if s.failed() || s.kind() == TokenType::EOF {
            s
        } else {
            s.fail(Failure::Syntax(SyntaxError::ExpectedStatement { found: s.kind() }))
        }
    }

    /// `program := {line-break} {statement}`, framed by the opening and the end of the
    /// entry function.
    pub open spec fn program_text(self) -> Self {
        self.header_line("# include <stdio.h>"@).header_line(
            "int main(void){"@,
        ).line_breaks().block().end_of_input().emit_line("return 0;"@).emit_line("}"@)
    }

    /// A whole program. The targets of all jumps are checked when the text has been read.
    pub open spec fn program(self) -> Self {
        self.program_text().resolve_gotos()
    }
}

} // verus!
