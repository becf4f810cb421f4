//! Every production consumes what it recognises: the bound on the tokens still to come
//! never grows, and shrinks with each token. This is what makes the grammar's repetitions
//! end.
use vstd::prelude::*;
use crate::grammar::{
    assignment_head, goto_line, input_guard, print_text_call, print_value_open, ParserState,
};
use crate::lex::lemma_scan_moves_forward;
use crate::token::{begins_statement, is_relational_kind, TokenType};

verus! {

/// `after` is `before` with some of its tokens consumed, or a failure.
pub open spec fn no_later(after: ParserState, before: ParserState) -> bool {
    after.failed() || (after.text == before.text && 0 <= after.cursor && after.remaining()
        <= before.remaining())
}

/// `after` is `before` with at least one of its tokens consumed, or a failure.
pub open spec fn later(after: ParserState, before: ParserState) -> bool {
    after.failed() || (after.text == before.text && 0 <= after.cursor && after.remaining()
        < before.remaining())
}

/// Moving the window on consumes a token if there is a current one.
pub(crate) proof fn lemma_advance(s: ParserState)
    requires
        0 <= s.cursor,
    ensures
        no_later(s.advance(), s),
        s.current is Some ==> later(s.advance(), s),
{
    lemma_scan_moves_forward(s.text, s.cursor);
}

/// A required token is consumed.
pub(crate) proof fn lemma_expect(s: ParserState, kind: TokenType)
    requires
        0 <= s.cursor,
    ensures
        later(s.expect(kind), s),
{
    lemma_advance(s);
}

/// A copied token is consumed.
pub(crate) proof fn lemma_copy_token(s: ParserState)
    requires
        0 <= s.cursor,
        s.current is Some,
    ensures
        later(s.copy_token(), s),
{
    lemma_advance(s.emit(s.word()));
}

/// Passing line breaks consumes them.
pub(crate) proof fn lemma_line_breaks(s: ParserState)
    requires
        0 <= s.cursor,
    ensures
        no_later(s.line_breaks(), s),
    decreases s.remaining(),
{
    let t = s.need_token();
    if !(t.failed() || t.kind() != TokenType::NEWLINE) {
        lemma_advance(t);
        if t.advance().progressed(s) {
            lemma_line_breaks(t.advance());
        }
    }
}

/// The end of a line consumes at least one line break.
pub(crate) proof fn lemma_line_end(s: ParserState)
    requires
        0 <= s.cursor,
    ensures
        later(s.line_end(), s),
{
    lemma_expect(s, TokenType::NEWLINE);
    if !s.expect(TokenType::NEWLINE).failed() {
        lemma_line_breaks(s.expect(TokenType::NEWLINE));
    }
}

/// A primary consumes its token.
pub(crate) proof fn lemma_primary(s: ParserState)
    requires
        0 <= s.cursor,
    ensures
        later(s.primary(), s),
{
    if s.current is Some {
        lemma_copy_token(s);
    }
}

/// An operand consumes its tokens.
pub(crate) proof fn lemma_unary(s: ParserState)
    requires
        0 <= s.cursor,
    ensures
        later(s.unary(), s),
{
    lemma_primary(s);
    if s.current is Some {
        lemma_copy_token(s);
        if !s.copy_token().failed() {
            lemma_primary(s.copy_token());
        }
    }
}

/// The factors after the first consume their tokens.
pub(crate) proof fn lemma_factors(s: ParserState)
    requires
        0 <= s.cursor,
    ensures
        no_later(s.factors(), s),
    decreases s.remaining(),
{
    let t = s.need_token();
    if !(t.failed() || !(t.kind() == TokenType::ASTERISK || t.kind() == TokenType::SLASH)) {
        lemma_copy_token(t);
        if !t.copy_token().failed() {
            lemma_unary(t.copy_token());
            if t.copy_token().unary().progressed(s) {
                lemma_factors(t.copy_token().unary());
            }
        }
    }
}

/// A term consumes its tokens.
pub(crate) proof fn lemma_term(s: ParserState)
    requires
        0 <= s.cursor,
    ensures
        later(s.term(), s),
{
    lemma_unary(s);
    if !s.unary().failed() {
        lemma_factors(s.unary());
    }
}

/// The terms after the first consume their tokens.
pub(crate) proof fn lemma_summands(s: ParserState)
    requires
        0 <= s.cursor,
    ensures
        no_later(s.summands(), s),
    decreases s.remaining(),
{
    let t = s.need_token();
    if !(t.failed() || !(t.kind() == TokenType::PLUS || t.kind() == TokenType::MINUS)) {
        lemma_copy_token(t);
        if !t.copy_token().failed() {
            lemma_term(t.copy_token());
            if t.copy_token().term().progressed(s) {
                lemma_summands(t.copy_token().term());
            }
        }
    }
}

/// An expression consumes its tokens.
pub(crate) proof fn lemma_expression(s: ParserState)
    requires
        0 <= s.cursor,
    ensures
        later(s.expression(), s),
{
    reveal(ParserState::expression);
    lemma_term(s);
    if !s.term().failed() {
        lemma_summands(s.term());
    }
}

/// The comparands after the second consume their tokens.
pub(crate) proof fn lemma_comparands(s: ParserState)
    requires
        0 <= s.cursor,
    ensures
        no_later(s.comparands(), s),
    decreases s.remaining(),
{
    reveal(ParserState::expression);
    let t = s.need_token();
    if !(t.failed() || !is_relational_kind(t.kind())) {
        lemma_copy_token(t);
        if !t.copy_token().failed() {
            lemma_expression(t.copy_token());
            if t.copy_token().expression().progressed(s) {
                lemma_comparands(t.copy_token().expression());
            }
        }
    }
}

/// A comparison consumes its tokens.
pub(crate) proof fn lemma_comparison(s: ParserState)
    requires
        0 <= s.cursor,
    ensures
        later(s.comparison(), s),
{
    reveal(ParserState::expression);
    reveal(ParserState::comparison);
    lemma_expression(s);
    let t = s.expression().need_token();
    if !t.failed() && is_relational_kind(t.kind()) {
        lemma_copy_token(t);
        if !t.copy_token().failed() {
            lemma_expression(t.copy_token());
            if !t.copy_token().expression().failed() {
                lemma_comparands(t.copy_token().expression());
            }
        }
    }
}

/// The head of a block statement consumes its tokens.
pub(crate) proof fn lemma_block_head(s: ParserState, opening: Seq<char>, separator: TokenType)
    requires
        0 <= s.cursor,
    ensures
        later(s.block_head(opening, separator), s),
{
    reveal(ParserState::comparison);
    reveal(ParserState::expression);
    reveal(ParserState::block_head);
    let a = s.emit(opening);
    lemma_comparison(a);
    if !a.comparison().failed() {
        lemma_expect(a.comparison(), separator);
        if !a.comparison().expect(separator).failed() {
            lemma_line_end(a.comparison().expect(separator));
        }
    }
}

/// What follows `PRINT` consumes its tokens.
pub(crate) proof fn lemma_print_rest(s: ParserState)
    requires
        0 <= s.cursor,
    ensures
        later(s.print_rest(), s),
{
    reveal(ParserState::expression);
    let t = s.need_token();
    if !t.failed() {
        lemma_advance(t.emit_line(print_text_call(t.word())));
        lemma_expression(t.emit(print_value_open()));
    }
}

/// What follows `LABEL` consumes its token.
pub(crate) proof fn lemma_label_rest(s: ParserState)
    requires
        0 <= s.cursor,
    ensures
        later(s.label_rest(), s),
{
    let t = s.need_name();
    if !t.failed() {
        lemma_advance(
            t.label(t.word()).emit(t.word()).emit_line(":"@),
        );
    }
}

/// What follows `GOTO` consumes its token.
pub(crate) proof fn lemma_goto_rest(s: ParserState)
    requires
        0 <= s.cursor,
    ensures
        later(s.goto_rest(), s),
{
    let t = s.need_name();
    if !t.failed() {
        lemma_advance(t.refer(t.word()).emit_line(goto_line(t.word())));
    }
}

/// What follows `LET` consumes its tokens.
pub(crate) proof fn lemma_let_rest(s: ParserState)
    requires
        0 <= s.cursor,
    ensures
        later(s.let_rest(), s),
{
    reveal(ParserState::expression);
    let t = s.need_name();
    if !t.failed() {
        let a = t.declare(t.word()).emit(assignment_head(t.word()));
        lemma_advance(a);
        if !a.advance().failed() {
            lemma_expect(a.advance(), TokenType::EQ);
            if !a.advance().expect(TokenType::EQ).failed() {
                lemma_expression(a.advance().expect(TokenType::EQ));
            }
        }
    }
}

/// What follows `INPUT` consumes its token.
pub(crate) proof fn lemma_input_rest(s: ParserState)
    requires
        0 <= s.cursor,
    ensures
        later(s.input_rest(), s),
{
    let t = s.need_name();
    if !t.failed() {
        lemma_advance(
            t.declare(t.word()).emit_line(input_guard(t.word())).emit("scanf(\"%"@).emit_line(
                "*s\");"@,
            ).emit_line("}"@),
        );
    }
}

/// What follows the keyword of a simple statement, and the end of its line.
proof fn lemma_simple_statement(s: ParserState, rest: ParserState)
    requires
        0 <= s.cursor,
        s.current is Some,
        !s.failed(),
        later(rest, s.advance()),
    ensures
        later(rest.line_end(), s),
{
    lemma_advance(s);
    if !rest.failed() {
        lemma_line_end(rest);
    }
}

/// A statement consumes its tokens: after it, fewer tokens are left.
pub proof fn lemma_statement(s: ParserState)
    requires
        0 <= s.cursor,
    ensures
        later(s.statement(), s),
    decreases s.remaining(), 0nat,
{
    reveal(ParserState::block_head);
    reveal(ParserState::comparison);
    reveal(ParserState::expression);
    reveal(ParserState::simple_statement);
    let t = s.need_token();
    if !t.failed() {
        lemma_advance(t);
        let a = t.advance();
        if !a.failed() {
            match t.kind() {
                TokenType::PRINT => {
                    lemma_print_rest(a);
                    lemma_simple_statement(t, a.print_rest());
                },
                TokenType::IF => {
                    lemma_block_head(a, "if("@, TokenType::THEN);
                    lemma_block_statement(s, a.block_head("if("@, TokenType::THEN), TokenType::ENDIF);
                },
                TokenType::WHILE => {
                    lemma_block_head(a, "while("@, TokenType::REPEAT);
                    lemma_block_statement(
                        s,
                        a.block_head("while("@, TokenType::REPEAT),
                        TokenType::ENDWHILE,
                    );
                },
                TokenType::LABEL => {
                    lemma_label_rest(a);
                    lemma_simple_statement(t, a.label_rest());
                },
                TokenType::GOTO => {
                    lemma_goto_rest(a);
                    lemma_simple_statement(t, a.goto_rest());
                },
                TokenType::LET => {
                    lemma_let_rest(a);
                    lemma_simple_statement(t, a.let_rest());
                },
                TokenType::INPUT => {
                    lemma_input_rest(a);
                    lemma_simple_statement(t, a.input_rest());
                },
                _ => {},
            }
        }
    }
}

/// The statements of a block, its closing keyword and the end of its line.
proof fn lemma_block_statement(s: ParserState, head: ParserState, closer: TokenType)
    requires
        0 <= s.cursor,
        later(head, s),
    ensures
        head.progressed(s) ==> later(head.block().expect(closer).emit_line("}"@).line_end(), s),
    decreases s.remaining(), 0nat, 1nat,
{
    if head.progressed(s) {
        lemma_block(head);
        let b = head.block();
        if !b.failed() {
            lemma_expect(b, closer);
            let e = b.expect(closer).emit_line("}"@);
            if !e.failed() {
                lemma_line_end(e);
            }
        }
    }
}

/// A run of statements consumes its tokens.
pub(crate) proof fn lemma_block(s: ParserState)
    requires
        0 <= s.cursor,
    ensures
        no_later(s.block(), s),
    decreases s.remaining(), 1nat,
{
    let t = s.need_token();
    if !(t.failed() || !begins_statement(t.kind())) {
        lemma_statement(t);
        if t.statement().progressed(s) {
            lemma_block(t.statement());
        }
    }
}

/// A failure ends the parse: nothing changes a state that has failed.
pub(crate) proof fn lemma_failure_stays(s: ParserState)
    requires
        s.failed(),
    ensures
        s.advance() == s,
        s.need_token() == s,
        s.need_name() == s,
        forall|kind: TokenType| #[trigger] s.expect(kind) == s,
        s.line_breaks() == s,
        s.line_end() == s,
        s.primary() == s,
        s.unary() == s,
        s.factors() == s,
        s.term() == s,
        s.summands() == s,
        s.expression() == s,
        s.comparands() == s,
        s.comparison() == s,
        s.print_rest() == s,
        s.label_rest() == s,
        s.goto_rest() == s,
        s.let_rest() == s,
        s.input_rest() == s,
        s.statement() == s,
        s.block() == s,
        s.end_of_input() == s,
        s.resolve_gotos() == s,
        forall|opening: Seq<char>, separator: TokenType| #[trigger]
            s.block_head(opening, separator) == s,
        forall|code: Seq<char>| #[trigger] s.emit(code) == s,
        forall|code: Seq<char>| #[trigger] s.emit_line(code) == s,
        forall|code: Seq<char>| #[trigger] s.header_line(code) == s,
{
    reveal(ParserState::expression);
    reveal(ParserState::comparison);
    reveal(ParserState::block_head);
    reveal(ParserState::simple_statement);
    assert(s.expression() == s);
    assert(s.comparison() == s);
}

} // verus!
