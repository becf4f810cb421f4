//! The parser: recognises the grammar token by token, checks the use of names, and hands
//! the translation of what it recognises to the emitter.
use vstd::prelude::*;
use crate::emit::Emitter;
use crate::error::{CompileError, LexicalError, SemanticError, SyntaxError};
use crate::grammar::{first_unresolved, ParserState};
use crate::lex::{lemma_scan_moves_forward, Lexer};
use crate::progress::{
    lemma_advance, lemma_block_head, lemma_copy_token, lemma_expression,
    lemma_statement, lemma_term, lemma_unary,
};
use crate::token::{is_relational_kind, view_of, Token, TokenType};

verus! {

/// A parser with its lexer, its emitter, a window of two tokens, and the names it has met.
///
/// The names are kept as lists without repetition, in the order in which the program first
/// uses them. So the declarations follow the order of the source, and of several labels
/// that are missing the first one named is the one reported.
pub struct Parser {
    pub lex: Lexer,
    pub emit: Emitter,
    pub current_token: Option<Token>,
    pub peek_token: Option<Token>,
    /// The declared variables, in the order of their declaration.
    pub symbols: Vec<String>,
    /// The declared labels, in the order of their declaration.
    pub declared_labels: Vec<String>,
    /// The labels that a `GOTO` has named, in the order in which they were first named.
    pub gotoed_labels: Vec<String>,
}

/// The parser as the grammar sees it. The character under the lexer's cursor is left out:
/// in a well-formed lexer it is given by the text and the cursor.
impl View for Parser {
    type V = ParserState;

    open spec fn view(&self) -> ParserState {
        ParserState {
            text: self.lex.data@,
            cursor: self.lex.current_pos as int,
            current: view_of(self.current_token),
            peek: view_of(self.peek_token),
            variables: self.symbols.deep_view(),
            labels: self.declared_labels.deep_view(),
            gotos: self.gotoed_labels.deep_view(),
            path: self.emit.path(),
            prologue: self.emit.prologue(),
            body: self.emit.body(),
            failure: None,
        }
    }
}

/// The state of a parser that has not asked its lexer for a token yet.
pub open spec fn initial_state(lex: Lexer, emit: Emitter) -> ParserState {
    ParserState::fresh(
        lex.data@,
        lex.current_pos as int,
        emit.path(),
        emit.prologue(),
        emit.body(),
    )
}

/// One for a token that is there, zero for one that is not.
pub open spec fn held(token: Option<Token>) -> int {
    if token is Some {
        1
    } else {
        0
    }
}

/// What a step of the parser leaves behind, against what the grammar says of it. On
/// success the parser is in the state that the grammar gives. On failure the error is the
/// failure that the grammar gives, and the parser still holds what it held where the
/// failure was met: its window, its names and what it has emitted.
pub open spec fn outcome(
    result: Result<(), CompileError>,
    after: Parser,
    model: ParserState,
) -> bool {
    match result {
        Ok(_) => after.wf() && after@ == model,
        Err(error) => model.failure == Some(error@) && after.stopped_at(model),
    }
}

/// Whether `name` is one of `names`.
fn contains(names: &Vec<String>, name: &String) -> (r: bool)
    ensures
        r == names.deep_view().contains(name@),
{
    let mut i: usize = 0;
    while i < names.len()
        invariant
            i <= names.len(),
            forall|j: int| 0 <= j < i ==> names.deep_view()[j] != name@,
        decreases names.len() - i,
    {
        if names[i] == *name {
            assert(names.deep_view()[i as int] == name@);
            return true;
        }
        i += 1;
    }
    false
}

/// Adds a name that is not among `names` yet.
fn remember(names: &mut Vec<String>, name: String)
    requires
        !old(names).deep_view().contains(name@),
        old(names).deep_view().no_duplicates(),
    ensures
        final(names).deep_view() == old(names).deep_view().push(name@),
        final(names).deep_view().no_duplicates(),
{
    names.push(name);
    assert(names.deep_view() =~= old(names).deep_view().push(name@));
}

impl Parser {
    /// The number of tokens in the lookahead window.
    pub open spec fn window(&self) -> int {
        held(self.current_token) + held(self.peek_token)
    }

    /// How far the lexer has come or may come without a further token: its cursor, or the
    /// end of its text if that lies ahead.
    pub open spec fn span(&self) -> int {
        if self.lex.current_pos <= self.lex.data@.len() {
            self.lex.data@.len() as int
        } else {
            self.lex.current_pos as int
        }
    }

    /// The parser holds what the state `model` holds, but for the cursor of the lexer, which
    /// may have gone on, and for the failure, which the parser returns.
    pub open spec fn stopped_at(&self, model: ParserState) -> bool {
        &&& self.lex.wf()
        &&& model.cursor <= self.lex.current_pos
        &&& self@ == (ParserState {
            cursor: self.lex.current_pos as int,
            failure: None,
            ..model
        })
    }

    /// The lexer is well formed, and no name is held twice.
    pub open spec fn inv(&self) -> bool {
        &&& self.lex.wf()
        &&& self.symbols.deep_view().no_duplicates()
        &&& self.declared_labels.deep_view().no_duplicates()
        &&& self.gotoed_labels.deep_view().no_duplicates()
    }

    /// The parser's invariant: [`Self::inv`], and the lexer's cursor can still pass the
    /// tokens in the window without leaving the range of its type.
    pub open spec fn wf(&self) -> bool {
        &&& self.inv()
        &&& self.span() + self.window() < i64::MAX
    }

    /// A parser over the tokens of `lex`, with the first two of them in its window.
    pub fn new(lex: Lexer, emit: Emitter) -> (r: Result<Parser, CompileError>)
        requires
            lex.wf(),
            lex.current_pos + 2 < i64::MAX,
            lex.data@.len() + 2 < i64::MAX,
        ensures
            match r {
                Ok(parser) => parser.wf() && parser@ == initial_state(
                    lex,
                    emit,
                ).advance().advance(),
                Err(error) => initial_state(lex, emit).advance().advance().failure == Some(
                    error@,
                ),
            },
    {
        let mut parser = Parser {
            lex,
            emit,
            current_token: None,
            peek_token: None,
            symbols: Vec::new(),
            declared_labels: Vec::new(),
            gotoed_labels: Vec::new(),
        };
        assert(parser.symbols.deep_view() =~= Seq::<Seq<char>>::empty());
        assert(parser.declared_labels.deep_view() =~= Seq::<Seq<char>>::empty());
        assert(parser.gotoed_labels.deep_view() =~= Seq::<Seq<char>>::empty());
        assert(parser@ == initial_state(lex, emit));
        match parser.next_token() {
            Ok(_) => {},
            Err(error) => {
                return Err(error);
            },
        }
        match parser.next_token() {
            Ok(_) => {},
            Err(error) => {
                return Err(error);
            },
        }
        Ok(parser)
    }

    /// Translates a whole program: the opening of the entry function, the statements up to
    /// the end of the input, and the end of the entry function. Fails with the first
    /// failure of a statement, or, when all statements are read, with the first `GOTO`
    /// target that no `LABEL` declares.
    pub fn program(&mut self) -> (r: Result<(), CompileError>)
        requires
            old(self).wf(),
        ensures
            outcome(r, *final(self), old(self)@.program()),
    {
        self.emit.header_line("# include <stdio.h>");
        self.emit.header_line("int main(void){");
        self.line_breaks()?;
        self.block()?;
        let kind = self.current_token_type()?;
        if kind != TokenType::EOF {
            return Err(CompileError::Syntax(SyntaxError::ExpectedStatement { found: kind }));
        }
        self.emit.emit_line("return 0;");
        self.emit.emit_line("}");
        let ghost gotos = self@.gotos;
        let ghost labels = self@.labels;
        assert(gotos.subrange(0, gotos.len() as int) =~= gotos);
        let mut i: usize = 0;
        while i < self.gotoed_labels.len()
            invariant
                self.wf(),
                self@ == old(self)@.program_text(),
                gotos == self@.gotos,
                labels == self@.labels,
                i <= gotos.len(),
                first_unresolved(gotos, labels) == first_unresolved(
                    gotos.subrange(i as int, gotos.len() as int),
                    labels,
                ),
            decreases gotos.len() - i,
        {
            let ghost rest = gotos.subrange(i as int, gotos.len() as int);
            assert(rest.drop_first() =~= gotos.subrange(i + 1, gotos.len() as int));
            assert(rest[0] == self.gotoed_labels[i as int]@);
            if !contains(&self.declared_labels, &self.gotoed_labels[i]) {
                return Err(
                    CompileError::Semantic(
                        SemanticError::UnresolvedGoto { name: self.gotoed_labels[i].clone() },
                    ),
                );
            }
            i += 1;
        }
        Ok(())
    }

    /// Translates one statement and passes the line breaks that end it.
    pub fn statement(&mut self) -> (r: Result<(), CompileError>)
        requires
            old(self).wf(),
        ensures
            outcome(r, *final(self), old(self)@.statement()),
        decreases old(self)@.remaining(), 0nat,
    {
        let kind = self.current_token_type()?;
        proof {
            reveal(ParserState::simple_statement);
            reveal(ParserState::block_head);
            reveal(ParserState::comparison);
            reveal(ParserState::expression);
            lemma_advance(self@);
        }
        match kind {
            TokenType::PRINT => {
                self.next_token()?;
                self.print_rest()?;
            },
            TokenType::IF => {
                self.next_token()?;
                proof {
                    lemma_block_head(self@, "if("@, TokenType::THEN);
                }
                self.block_head("if(", TokenType::THEN)?;
                self.block()?;
                self.match_token(TokenType::ENDIF)?;
                self.emit.emit_line("}");
            },
            TokenType::WHILE => {
                self.next_token()?;
                proof {
                    lemma_block_head(self@, "while("@, TokenType::REPEAT);
                }
                self.block_head("while(", TokenType::REPEAT)?;
                self.block()?;
                self.match_token(TokenType::ENDWHILE)?;
                self.emit.emit_line("}");
            },
            TokenType::LABEL => {
                self.next_token()?;
                self.label_rest()?;
            },
            TokenType::GOTO => {
                self.next_token()?;
                self.goto_rest()?;
            },
            TokenType::LET => {
                self.next_token()?;
                self.let_rest()?;
            },
            TokenType::INPUT => {
                self.next_token()?;
                self.input_rest()?;
            },
            _ => {
                return Err(CompileError::Syntax(SyntaxError::ExpectedStatement { found: kind }));
            },
        }
        self.nl()
    }

    /// Translates statements as long as the current token begins one.
    fn block(&mut self) -> (r: Result<(), CompileError>)
        requires
            old(self).wf(),
        ensures
            outcome(r, *final(self), old(self)@.block()),
        decreases old(self)@.remaining(), 1nat,
    {
        loop
            invariant
                self.wf(),
                self@.block() == old(self)@.block(),
                self@.remaining() <= old(self)@.remaining(),
            decreases self@.remaining(),
        {
            let kind = self.current_token_type()?;
            if !kind.begins_statement() {
                return Ok(());
            }
            proof {
                lemma_statement(self@);
            }
            self.statement()?;
        }
    }

    /// What follows `PRINT`: a string literal, or an expression.
    fn print_rest(&mut self) -> (r: Result<(), CompileError>)
        requires
            old(self).wf(),
        ensures
            outcome(r, *final(self), old(self)@.print_rest()),
    {
        proof {
            reveal(ParserState::expression);
        }
        let kind = self.current_token_type()?;
        if kind == TokenType::STRING {
            let text = self.current_token_text();
            let mut line = "printf(\"".to_owned();
            line.append(text.as_str());
            line.append("\\n\");");
            self.emit.emit_line(line.as_str());
            self.next_token()
        } else {
            self.emit.emit("printf(\"%.2f\\n\", (float)(");
            self.expression()?;
            self.emit.emit_line("));");
            Ok(())
        }
    }

    /// What follows `IF` or `WHILE` up to the statements of the block.
    fn block_head(&mut self, opening: &str, separator: TokenType) -> (r: Result<
        (),
        CompileError,
    >)
        requires
            old(self).wf(),
        ensures
            outcome(r, *final(self), old(self)@.block_head(opening@, separator)),
    {
        proof {
            reveal(ParserState::block_head);
            reveal(ParserState::comparison);
            reveal(ParserState::expression);
        }
        self.emit.emit(opening);
        self.comparison()?;
        self.match_token(separator)?;
        self.nl()?;
        self.emit.emit_line("){");
        Ok(())
    }

    /// The name that a statement needs where the parser stands.
    fn need_name(&self) -> (r: Result<String, CompileError>)
        requires
            self.wf(),
        ensures
            match r {
                Ok(name) => !self@.need_name().failed() && self.current_token is Some && name@
                    == self@.word(),
                Err(error) => self@.need_name().failure == Some(error@),
            },
    {
        let kind = self.current_token_type()?;
        if kind != TokenType::IDENT {
            return Err(
                CompileError::Syntax(
                    SyntaxError::Expected { expected: TokenType::IDENT, found: kind },
                ),
            );
        }
        Ok(self.current_token_text())
    }

    /// Declares `name` as a variable unless it is one already.
    fn declare(&mut self, name: &String)
        requires
            old(self).wf(),
        ensures
            final(self).wf(),
            final(self)@ == old(self)@.declare(name@),
    {
        if !contains(&self.symbols, name) {
            remember(&mut self.symbols, name.clone());
            let mut line = "float ".to_owned();
            line.append(name.as_str());
            line.append(";");
            self.emit.header_line(line.as_str());
        }
    }

    /// What follows `LABEL`.
    fn label_rest(&mut self) -> (r: Result<(), CompileError>)
        requires
            old(self).wf(),
        ensures
            outcome(r, *final(self), old(self)@.label_rest()),
    {
        let text = self.need_name()?;
        if contains(&self.declared_labels, &text) {
            return Err(CompileError::Semantic(SemanticError::DuplicateLabel { name: text }));
        }
        remember(&mut self.declared_labels, text.clone());
        self.emit.emit(text.as_str());
        self.emit.emit_line(":");
        self.next_token()
    }

    /// What follows `GOTO`.
    fn goto_rest(&mut self) -> (r: Result<(), CompileError>)
        requires
            old(self).wf(),
        ensures
            outcome(r, *final(self), old(self)@.goto_rest()),
    {
        let text = self.need_name()?;
        if !contains(&self.gotoed_labels, &text) {
            remember(&mut self.gotoed_labels, text.clone());
        }
        let mut line = "goto ".to_owned();
        line.append(text.as_str());
        line.append(";");
        self.emit.emit_line(line.as_str());
        self.next_token()
    }

    /// What follows `LET`.
    fn let_rest(&mut self) -> (r: Result<(), CompileError>)
        requires
            old(self).wf(),
        ensures
            outcome(r, *final(self), old(self)@.let_rest()),
    {
        proof {
            reveal(ParserState::expression);
        }
        let text = self.need_name()?;
        self.declare(&text);
        let mut head = text.clone();
        head.append(" = ");
        self.emit.emit(head.as_str());
        self.next_token()?;
        self.match_token(TokenType::EQ)?;
        self.expression()?;
        self.emit.emit_line(";");
        Ok(())
    }

    /// What follows `INPUT`.
    fn input_rest(&mut self) -> (r: Result<(), CompileError>)
        requires
            old(self).wf(),
        ensures
            outcome(r, *final(self), old(self)@.input_rest()),
    {
        let text = self.need_name()?;
        self.declare(&text);
        let mut line = "if(0 == scanf(\"%f\", &".to_owned();
        line.append(text.as_str());
        line.append(")) {\n");
        line.append(text.as_str());
        line.append(" = 0;");
        self.emit.emit_line(line.as_str());
        self.emit.emit("scanf(\"%");
        self.emit.emit_line("*s\");");
        self.emit.emit_line("}");
        self.next_token()
    }

    /// Passes the line breaks at which the parser stands.
    fn line_breaks(&mut self) -> (r: Result<(), CompileError>)
        requires
            old(self).wf(),
        ensures
            outcome(r, *final(self), old(self)@.line_breaks()),
    {
        loop
            invariant
                self.wf(),
                self@.line_breaks() == old(self)@.line_breaks(),
            decreases self@.remaining(),
        {
            let kind = self.current_token_type()?;
            if kind != TokenType::NEWLINE {
                return Ok(());
            }
            proof {
                lemma_advance(self@);
            }
            self.next_token()?;
        }
    }

    /// Requires a line break and passes it and those that follow it.
    fn nl(&mut self) -> (r: Result<(), CompileError>)
        requires
            old(self).wf(),
        ensures
            outcome(r, *final(self), old(self)@.line_end()),
    {
        self.match_token(TokenType::NEWLINE)?;
        self.line_breaks()
    }

    /// `comparison := expression relop expression {relop expression}`
    fn comparison(&mut self) -> (r: Result<(), CompileError>)
        requires
            old(self).wf(),
        ensures
            outcome(r, *final(self), old(self)@.comparison()),
    {
        proof {
            reveal(ParserState::comparison);
            reveal(ParserState::expression);
        }
        self.expression()?;
        let kind = self.current_token_type()?;
        if !kind.is_relational() {
            return Err(CompileError::Syntax(SyntaxError::ExpectedComparison { found: kind }));
        }
        self.copy_token()?;
        self.expression()?;
        loop
            invariant
                self.wf(),
                self@.comparands() == old(self)@.comparison(),
            decreases self@.remaining(),
        {
            if !self.is_comparison_operator()? {
                return Ok(());
            }
            proof {
                reveal(ParserState::expression);
                lemma_copy_token(self@);
                if !self@.copy_token().failed() {
                    lemma_expression(self@.copy_token());
                }
            }
            self.copy_token()?;
            self.expression()?;
        }
    }

    /// Whether the current token is a relational operator.
    fn is_comparison_operator(&self) -> (r: Result<bool, CompileError>)
        requires
            self.wf(),
        ensures
            match r {
                Ok(yes) => self.current_token is Some && yes == is_relational_kind(
                    self@.kind(),
                ),
                Err(error) => self.current_token is None && error@ == self@.missing_token(),
            },
    {
        Ok(self.current_token_type()?.is_relational())
    }

    /// `expression := term {('+'|'-') term}`
    fn expression(&mut self) -> (r: Result<(), CompileError>)
        requires
            old(self).wf(),
        ensures
            outcome(r, *final(self), old(self)@.expression()),
    {
        proof {
            reveal(ParserState::expression);
        }
        self.term()?;
        loop
            invariant
                self.wf(),
                self@.summands() == old(self)@.expression(),
            decreases self@.remaining(),
        {
            if !(self.check_token(TokenType::PLUS)? || self.check_token(TokenType::MINUS)?) {
                return Ok(());
            }
            proof {
                lemma_copy_token(self@);
                if !self@.copy_token().failed() {
                    lemma_term(self@.copy_token());
                }
            }
            self.copy_token()?;
            self.term()?;
        }
    }

    /// `term := unary {('*'|'/') unary}`
    fn term(&mut self) -> (r: Result<(), CompileError>)
        requires
            old(self).wf(),
        ensures
            outcome(r, *final(self), old(self)@.term()),
    {
        self.unary()?;
        loop
            invariant
                self.wf(),
                self@.factors() == old(self)@.term(),
            decreases self@.remaining(),
        {
            if !(self.check_token(TokenType::ASTERISK)? || self.check_token(TokenType::SLASH)?) {
                return Ok(());
            }
            proof {
                lemma_copy_token(self@);
                if !self@.copy_token().failed() {
                    lemma_unary(self@.copy_token());
                }
            }
            self.copy_token()?;
            self.unary()?;
        }
    }

    /// `unary := [('+'|'-')] primary`
    fn unary(&mut self) -> (r: Result<(), CompileError>)
        requires
            old(self).wf(),
        ensures
            outcome(r, *final(self), old(self)@.unary()),
    {
        if self.check_token(TokenType::PLUS)? || self.check_token(TokenType::MINUS)? {
            self.copy_token()?;
        }
        self.primary()
    }

    /// `primary := NUMBER | IDENT`, where the identifier must be a declared variable.
    fn primary(&mut self) -> (r: Result<(), CompileError>)
        requires
            old(self).wf(),
        ensures
            outcome(r, *final(self), old(self)@.primary()),
    {
        let kind = self.current_token_type()?;
        if kind == TokenType::NUMBER {
            self.copy_token()
        } else if kind == TokenType::IDENT {
            let text = self.current_token_text();
            if !contains(&self.symbols, &text) {
                return Err(
                    CompileError::Semantic(SemanticError::UndeclaredVariable { name: text }),
                );
            }
            self.copy_token()
        } else {
            Err(CompileError::Syntax(SyntaxError::ExpectedPrimary { found: kind }))
        }
    }

    /// Whether the current token is of `kind`.
    fn check_token(&self, kind: TokenType) -> (r: Result<bool, CompileError>)
        requires
            self.wf(),
        ensures
            match r {
                Ok(yes) => self.current_token is Some && yes == (self@.kind() == kind),
                Err(error) => self.current_token is None && error@ == self@.missing_token(),
            },
    {
        Ok(self.current_token_type()? == kind)
    }

    /// Requires the current token to be of `kind` and moves past it.
    fn match_token(&mut self, kind: TokenType) -> (r: Result<(), CompileError>)
        requires
            old(self).wf(),
        ensures
            outcome(r, *final(self), old(self)@.expect(kind)),
    {
        let found = self.current_token_type()?;
        if found != kind {
            return Err(CompileError::Syntax(SyntaxError::Expected { expected: kind, found }));
        }
        self.next_token()
    }

    /// Hands the text of the current token to the emitter and moves past the token.
    fn copy_token(&mut self) -> (r: Result<(), CompileError>)
        requires
            old(self).wf(),
            old(self).current_token is Some,
        ensures
            outcome(r, *final(self), old(self)@.copy_token()),
    {
        let text = self.current_token_text();
        self.emit.emit(text.as_str());
        self.next_token()
    }

    /// The text that the current token contributes to the output.
    fn current_token_text(&self) -> (r: String)
        requires
            self.current_token is Some,
        ensures
            r@ == self@.word(),
    {
        match &self.current_token {
            Some(token) => match &token.token_text {
                Some(text) => text.clone(),
                None => if token.token_type == TokenType::EQEQ {
                    "==".to_owned()
                } else {
                    String::new()
                },
            },
            None => String::new(),
        }
    }

    /// The kind of the current token. Without a current token, the error says why the
    /// lexer supplied none.
    fn current_token_type(&self) -> (r: Result<TokenType, CompileError>)
        requires
            self.lex.wf(),
        ensures
            match r {
                Ok(kind) => self.current_token is Some && kind == self@.kind(),
                Err(error) => self.current_token is None && error@ == self@.missing_token(),
            },
    {
        match &self.current_token {
            Some(token) => Ok(token.token_type),
            None => match self.lex.current_char {
                Some(found) => Err(
                    CompileError::Lexical(
                        LexicalError::UnrecognizedCharacter {
                            found,
                            position: self.lex.current_pos,
                        },
                    ),
                ),
                None => Err(
                    CompileError::Lexical(
                        LexicalError::EndOfText { position: self.lex.current_pos },
                    ),
                ),
            },
        }
    }

    /// Moves the window on by one token.
    fn next_token(&mut self) -> (r: Result<(), CompileError>)
        requires
            old(self).inv(),
            old(self).lex.current_pos < i64::MAX,
        ensures
            match r {
                Ok(_) => final(self).inv() && final(self)@ == old(self)@.advance(),
                Err(error) => old(self)@.advance().failure == Some(error@) && final(self).stopped_at(old(self)@.advance()),
            },
            r is Ok ==> final(self).span() + held(final(self).peek_token) <= old(self).span() + 1,
            old(self).wf() && old(self).current_token is Some && r is Ok ==> final(self).wf(),
    {
        proof {
            lemma_scan_moves_forward(self.lex.data@, self.lex.current_pos as int);
        }
        match self.lex.get_token() {
            Ok(token) => {
                self.current_token = self.peek_token.take();
                self.peek_token = token;
                Ok(())
            },
            Err(error) => Err(CompileError::Lexical(error)),
        }
    }
}

} // verus!
