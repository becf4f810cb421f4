//! A parse that succeeds is the parse of a program: from every production that succeeds,
//! the piece of a program that it has recognised can be read off, with the tokens that were
//! consumed as its tokens.
use vstd::prelude::*;
use crate::grammar::{
    assignment_head, goto_line, input_guard, print_text_call, print_value_open, spelling,
    ParserState,
};
use crate::lex::{scan, Scan};
use crate::progress::{
    lemma_advance, lemma_block_head, lemma_copy_token, lemma_expression, lemma_failure_stays,
    lemma_statement, lemma_term, lemma_unary,
};
use crate::recognition::{
    is_block_form, kind_of, lemma_comparison_admissible, lemma_comparison_frame,
    lemma_operations_frame,
};
use crate::stream::{
    cursor_after, is_copied, item, legible, lemma_cursor_after, lemma_legible_at,
    lemma_legible_more, lemma_placed_advance, lemma_reads_concat, lemma_reads_none,
    lemma_reads_one, lemma_start_is_placed, placed, reads, shows, Piece,
};
use crate::syntax::{
    block_entered, block_tokens, breaks, is_operator, is_sign, lines_admissible, lines_apply,
    lines_tokens, lines_well_formed, mark, name_piece, operations_apply, operations_tokens,
    relations_apply, relations_tokens, symbol, Comparison, Expression, Line, Operand, Program,
    Statement,
};
use crate::text::{lemma_run_end, CharClass};
use crate::token::{begins_statement, is_relational_kind, TokenType};

verus! {

/// A parse is under way with its window on the token number `at`: nothing has failed, not
/// the parse and not a call for a token of the window.
pub open spec fn under_way(text: Seq<char>, at: nat, s: ParserState) -> bool {
    !s.failed() && legible(text, at + 2)
}

/// The lexer spells each operator as [`symbol`] says, so the operators of a program are
/// read as the pieces that its structure gives.
pub proof fn lemma_operator_spelling(text: Seq<char>, from: int)
    requires
        0 <= from,
    ensures
        scan(text, from) matches Scan::Token { token, next } ==> (is_operator(token.kind)
            || is_relational_kind(token.kind) ==> spelling(token) == symbol(token.kind)),
{
    reveal(scan);
    reveal_strlit("+");
    reveal_strlit("-");
    reveal_strlit("*");
    reveal_strlit("/");
    reveal_strlit("==");
    reveal_strlit("!=");
    reveal_strlit("<");
    reveal_strlit("<=");
    reveal_strlit(">");
    reveal_strlit(">=");
    lemma_run_end(text, from, CharClass::Blank);
    if let Scan::Token { token, next } = scan(text, from) {
        if is_operator(token.kind) || is_relational_kind(token.kind) {
            assert(spelling(token) =~= symbol(token.kind));
        }
    }
}

/// Where the window could be moved on, it is on the next token.
proof fn lemma_moved(text: Seq<char>, at: nat, s: ParserState)
    requires
        under_way(text, at, s),
        !placed(text, at, s).advance().failed(),
    ensures
        placed(text, at, s).advance() == placed(text, at + 1, s),
        under_way(text, at + 1, s),
{
    assert(!(item(text, at + 2) is Fatal));
    lemma_placed_advance(text, at, s);
    lemma_legible_more(text, at + 2);
}

/// Where the current token could be copied, it was a token, its text has gone to the
/// output, and the window is on the next token.
proof fn lemma_copied(text: Seq<char>, at: nat, s: ParserState) -> (piece: Piece)
    requires
        under_way(text, at, s),
        placed(text, at, s).current is Some,
        is_copied(kind_of(text, at)),
        !placed(text, at, s).copy_token().failed(),
    ensures
        piece.kind == kind_of(text, at),
        piece.text == placed(text, at, s).word(),
        is_operator(piece.kind) || is_relational_kind(piece.kind) ==> piece == mark(piece.kind),
        shows(item(text, at), piece),
        reads(text, at, seq![piece]),
        placed(text, at, s).copy_token() == placed(text, at + 1, s.emit(piece.text)),
        under_way(text, at + 1, s.emit(piece.text)),
{
    let here = placed(text, at, s);
    let token = item(text, at)->token;
    let piece = Piece { kind: token.kind, text: spelling(token) };
    assert(here.emit(here.word()) == placed(text, at, s.emit(piece.text)));
    lemma_moved(text, at, s.emit(piece.text));
    lemma_cursor_after(text, at);
    lemma_operator_spelling(text, cursor_after(text, at));
    lemma_reads_one(text, at, piece);
    piece
}

/// A primary that was recognised.
proof fn lemma_primary_parsed(text: Seq<char>, at: nat, s: ParserState) -> (x: Operand)
    requires
        under_way(text, at, s),
        !placed(text, at, s).primary().failed(),
    ensures
        x.sign is None,
        x.well_formed(),
        x.admissible(s),
        reads(text, at, x.tokens()),
        placed(text, at, s).primary() == placed(text, at + 1, x.apply(s)),
        under_way(text, at + 1, x.apply(s)),
{
    let piece = lemma_copied(text, at, s);
    Operand { sign: None, kind: piece.kind, text: piece.text }
}

/// An operand that was recognised.
proof fn lemma_unary_parsed(text: Seq<char>, at: nat, s: ParserState) -> (x: Operand)
    requires
        under_way(text, at, s),
        !placed(text, at, s).unary().failed(),
    ensures
        x.well_formed(),
        x.admissible(s),
        reads(text, at, x.tokens()),
        placed(text, at, s).unary() == placed(text, at + x.tokens().len(), x.apply(s)),
        under_way(text, at + x.tokens().len(), x.apply(s)),
{
    let here = placed(text, at, s);
    if is_sign(kind_of(text, at)) {
        let sign = lemma_copied(text, at, s);
        let s1 = s.emit(sign.text);
        let bare = lemma_primary_parsed(text, at + 1, s1);
        let x = Operand { sign: Some(sign.kind), kind: bare.kind, text: bare.text };
        assert(x.tokens() =~= seq![sign] + bare.tokens());
        lemma_reads_concat(text, at, seq![sign], bare.tokens());
        x
    } else {
        lemma_primary_parsed(text, at, s)
    }
}

/// The operators and operands after the first operand of an expression that was
/// recognised.
proof fn lemma_operations_parsed(text: Seq<char>, at: nat, s: ParserState) -> (rest: Seq<
    (TokenType, Operand),
>)
    requires
        under_way(text, at, s),
        !placed(text, at, s).factors().summands().failed(),
    ensures
        forall|i: int|
            0 <= i < rest.len() ==> is_operator((#[trigger] rest[i]).0) && rest[i].1.well_formed()
                && rest[i].1.admissible(s),
        reads(text, at, operations_tokens(rest)),
        placed(text, at, s).factors().summands() == placed(
            text,
            at + operations_tokens(rest).len(),
            operations_apply(rest, s),
        ),
        under_way(text, at + operations_tokens(rest).len(), operations_apply(rest, s)),
        placed(text, at + operations_tokens(rest).len(), s).current is Some,
        !is_operator(kind_of(text, at + operations_tokens(rest).len())),
    decreases placed(text, at, s).remaining(),
{
    let here = placed(text, at, s);
    lemma_cursor_after(text, at + 2);
    assert(here.current is Some);
    let kind = kind_of(text, at);
    if is_operator(kind) {
        lemma_copy_token(here);
        let next = if kind == TokenType::ASTERISK || kind == TokenType::SLASH {
            here.copy_token().unary()
        } else {
            assert(here.factors() == here);
            lemma_term(here.copy_token());
            here.copy_token().unary()
        };
        if !here.copy_token().failed() {
            lemma_unary(here.copy_token());
        }
        assert(here.factors().summands() == next.factors().summands());
        assert(!next.failed());
        let op = lemma_copied(text, at, s);
        let s1 = s.emit(op.text);
        let x = lemma_unary_parsed(text, at + 1, s1);
        let after = (at + 1 + x.tokens().len()) as nat;
        let s2 = x.apply(s1);
        assert(next == placed(text, after, s2));
        let tail = lemma_operations_parsed(text, after, s2);
        let rest = seq![(op.kind, x)] + tail;
        assert(rest.drop_first() =~= tail);
        assert(rest[0] == (op.kind, x));
        lemma_reads_concat(text, at, seq![op], x.tokens());
        lemma_reads_concat(text, at, seq![op] + x.tokens(), operations_tokens(tail));
        assert forall|i: int| 0 <= i < rest.len() implies is_operator((#[trigger] rest[i]).0)
            && rest[i].1.well_formed() && rest[i].1.admissible(s) by {
            if i > 0 {
                assert(rest[i] == tail[i - 1]);
                assert(tail[i - 1].1.admissible(s2));
            }
        }
        rest
    } else {
        assert(here.factors() == here);
        assert(here.summands() == here);
        lemma_reads_none(text, at);
        Seq::empty()
    }
}

/// An expression that was recognised. The token after it is no operator.
pub(crate) proof fn lemma_expression_parsed(text: Seq<char>, at: nat, s: ParserState) -> (x:
    Expression)
    requires
        under_way(text, at, s),
        !placed(text, at, s).expression().failed(),
    ensures
        x.well_formed(),
        x.admissible(s),
        reads(text, at, x.tokens()),
        placed(text, at, s).expression() == placed(text, at + x.tokens().len(), x.apply(s)),
        under_way(text, at + x.tokens().len(), x.apply(s)),
        placed(text, at + x.tokens().len(), s).current is Some,
        !is_operator(kind_of(text, at + x.tokens().len())),
{
    reveal(ParserState::expression);
    let here = placed(text, at, s);
    assert(!here.unary().failed());
    let first = lemma_unary_parsed(text, at, s);
    let after = (at + first.tokens().len()) as nat;
    let rest = lemma_operations_parsed(text, after, first.apply(s));
    let x = Expression { first, rest };
    lemma_reads_concat(text, at, first.tokens(), operations_tokens(rest));
    assert forall|i: int| 0 <= i < rest.len() implies (#[trigger] rest[i]).1.admissible(s) by {
        assert(rest[i].1.admissible(first.apply(s)));
    }
    x
}

/// An expression is admissible wherever the same variables are declared.
proof fn lemma_expression_admissible(x: Expression, s: ParserState, t: ParserState)
    requires
        x.admissible(s),
        s.variables == t.variables,
    ensures
        x.admissible(t),
{
    assert forall|i: int| 0 <= i < x.rest.len() implies (#[trigger] x.rest[i]).1.admissible(t) by {
        assert(x.rest[i].1.admissible(s));
    }
}

/// A relational operator and the expression after it, where both were recognised.
proof fn lemma_relation_parsed(text: Seq<char>, at: nat, s: ParserState) -> (found: (
    TokenType,
    Expression,
))
    requires
        under_way(text, at, s),
        placed(text, at, s).current is Some,
        is_relational_kind(kind_of(text, at)),
        !placed(text, at, s).copy_token().expression().failed(),
    ensures
        found.0 == kind_of(text, at),
        found.1.well_formed(),
        found.1.admissible(s),
        reads(text, at, seq![mark(found.0)] + found.1.tokens()),
        placed(text, at, s).copy_token().expression() == placed(
            text,
            at + 1 + found.1.tokens().len(),
            found.1.apply(s.emit(symbol(found.0))),
        ),
        under_way(text, at + 1 + found.1.tokens().len(), found.1.apply(s.emit(symbol(found.0)))),
        found.1.apply(s.emit(symbol(found.0))).variables == s.variables,
        placed(text, at + 1 + found.1.tokens().len(), s).current is Some,
{
    reveal(ParserState::expression);
    let here = placed(text, at, s);
    assert(!here.copy_token().failed());
    let op = lemma_copied(text, at, s);
    let s1 = s.emit(op.text);
    let x = lemma_expression_parsed(text, at + 1, s1);
    lemma_expression_admissible(x, s1, s);
    lemma_operations_frame(x.rest, x.first.apply(s1));
    lemma_reads_concat(text, at, seq![op], x.tokens());
    (op.kind, x)
}

/// The relational operators and expressions after the second expression of a comparison
/// that was recognised.
proof fn lemma_relations_parsed(text: Seq<char>, at: nat, s: ParserState) -> (rest: Seq<
    (TokenType, Expression),
>)
    requires
        under_way(text, at, s),
        !placed(text, at, s).comparands().failed(),
    ensures
        forall|i: int|
            0 <= i < rest.len() ==> is_relational_kind((#[trigger] rest[i]).0)
                && rest[i].1.well_formed() && rest[i].1.admissible(s),
        reads(text, at, relations_tokens(rest)),
        placed(text, at, s).comparands() == placed(
            text,
            at + relations_tokens(rest).len(),
            relations_apply(rest, s),
        ),
        under_way(text, at + relations_tokens(rest).len(), relations_apply(rest, s)),
        relations_apply(rest, s).variables == s.variables,
        placed(text, at + relations_tokens(rest).len(), s).current is Some,
    decreases placed(text, at, s).remaining(),
{
    reveal(ParserState::expression);
    let here = placed(text, at, s);
    lemma_cursor_after(text, at + 2);
    assert(here.current is Some);
    if is_relational_kind(kind_of(text, at)) {
        lemma_copy_token(here);
        if !here.copy_token().failed() {
            lemma_cursor_after(text, at + 3);
            lemma_expression(here.copy_token());
        }
        let next = here.copy_token().expression();
        assert(here.comparands() == next.comparands());
        assert(!next.failed());
        let found = lemma_relation_parsed(text, at, s);
        let after = (at + 1 + found.1.tokens().len()) as nat;
        let s2 = found.1.apply(s.emit(symbol(found.0)));
        let tail = lemma_relations_parsed(text, after, s2);
        let rest = seq![found] + tail;
        assert(rest.drop_first() =~= tail);
        assert(rest[0] == found);
        lemma_reads_concat(
            text,
            at,
            seq![mark(found.0)] + found.1.tokens(),
            relations_tokens(tail),
        );
        assert forall|i: int| 0 <= i < rest.len() implies is_relational_kind(
            (#[trigger] rest[i]).0,
        ) && rest[i].1.well_formed() && rest[i].1.admissible(s) by {
            if i > 0 {
                assert(rest[i] == tail[i - 1]);
                lemma_expression_admissible(tail[i - 1].1, s2, s);
            }
        }
        rest
    } else {
        assert(here.comparands() == here);
        lemma_reads_none(text, at);
        Seq::empty()
    }
}

/// A comparison that was recognised.
proof fn lemma_comparison_parsed(text: Seq<char>, at: nat, s: ParserState) -> (x: Comparison)
    requires
        under_way(text, at, s),
        !placed(text, at, s).comparison().failed(),
    ensures
        x.well_formed(),
        x.admissible(s),
        reads(text, at, x.tokens()),
        placed(text, at, s).comparison() == placed(text, at + x.tokens().len(), x.apply(s)),
        under_way(text, at + x.tokens().len(), x.apply(s)),
        placed(text, at + x.tokens().len(), s).current is Some,
{
    reveal(ParserState::comparison);
    let here = placed(text, at, s);
    assert(!here.expression().failed());
    let first = lemma_expression_parsed(text, at, s);
    lemma_operations_frame(first.rest, first.first.apply(s));
    let second = (at + first.tokens().len()) as nat;
    let s1 = first.apply(s);
    let there = placed(text, second, s1);
    assert(here.expression() == there);
    assert(is_relational_kind(kind_of(text, second)));
    assert(here.comparison() == there.copy_token().expression().comparands());
    assert(!there.copy_token().expression().failed());
    let found = lemma_relation_parsed(text, second, s1);
    let third = (second + 1 + found.1.tokens().len()) as nat;
    let s2 = found.1.apply(s1.emit(symbol(found.0)));
    let tail = lemma_relations_parsed(text, third, s2);
    let rest = seq![found] + tail;
    assert(rest.drop_first() =~= tail);
    assert(rest[0] == found);
    lemma_reads_concat(text, second, seq![mark(found.0)] + found.1.tokens(), relations_tokens(tail));
    lemma_reads_concat(text, at, first.tokens(), relations_tokens(rest));
    lemma_expression_admissible(found.1, s1, s);
    assert forall|i: int| 0 <= i < rest.len() implies is_relational_kind((#[trigger] rest[i]).0)
        && rest[i].1.well_formed() && rest[i].1.admissible(s) by {
        if i > 0 {
            assert(rest[i] == tail[i - 1]);
            lemma_expression_admissible(tail[i - 1].1, s2, s);
        }
    }
    Comparison { first, rest }
}

/// A token that is not copied was passed: a keyword, a line break, or `=`.
proof fn lemma_passed(text: Seq<char>, at: nat, s: ParserState, kind: TokenType)
    requires
        under_way(text, at, s),
        placed(text, at, s).current is Some,
        kind_of(text, at) == kind,
        !is_copied(kind),
        !placed(text, at, s).advance().failed(),
    ensures
        reads(text, at, seq![mark(kind)]),
        placed(text, at, s).advance() == placed(text, at + 1, s),
        under_way(text, at + 1, s),
{
    lemma_moved(text, at, s);
    lemma_reads_one(text, at, mark(kind));
}

/// The line breaks that were passed.
proof fn lemma_breaks_parsed(text: Seq<char>, at: nat, s: ParserState) -> (count: nat)
    requires
        under_way(text, at, s),
        !placed(text, at, s).line_breaks().failed(),
    ensures
        reads(text, at, breaks(count)),
        placed(text, at, s).line_breaks() == placed(text, at + count, s),
        under_way(text, at + count, s),
        placed(text, at + count, s).current is Some,
        kind_of(text, at + count) != TokenType::NEWLINE,
    decreases placed(text, at, s).remaining(),
{
    let here = placed(text, at, s);
    lemma_cursor_after(text, at + 2);
    assert(here.current is Some);
    if kind_of(text, at) == TokenType::NEWLINE {
        lemma_advance(here);
        assert(here.line_breaks() == here.advance().line_breaks());
        lemma_passed(text, at, s, TokenType::NEWLINE);
        let fewer = lemma_breaks_parsed(text, at + 1, s);
        assert(breaks(1 + fewer) =~= seq![mark(TokenType::NEWLINE)] + breaks(fewer));
        lemma_reads_concat(text, at, seq![mark(TokenType::NEWLINE)], breaks(fewer));
        1 + fewer
    } else {
        assert(here.line_breaks() == here);
        assert(breaks(0) =~= Seq::<Piece>::empty());
        lemma_reads_none(text, at);
        0
    }
}

/// The line breaks that ended a statement: one, and `blank` more.
proof fn lemma_line_end_parsed(text: Seq<char>, at: nat, s: ParserState) -> (blank: nat)
    requires
        under_way(text, at, s),
        !placed(text, at, s).line_end().failed(),
    ensures
        reads(text, at, breaks(1 + blank)),
        placed(text, at, s).line_end() == placed(text, at + 1 + blank, s),
        under_way(text, at + 1 + blank, s),
        placed(text, at + 1 + blank, s).current is Some,
        kind_of(text, at + 1 + blank) != TokenType::NEWLINE,
{
    let here = placed(text, at, s);
    assert(!here.expect(TokenType::NEWLINE).failed());
    lemma_passed(text, at, s, TokenType::NEWLINE);
    let blank = lemma_breaks_parsed(text, at + 1, s);
    assert(breaks(1 + blank) =~= seq![mark(TokenType::NEWLINE)] + breaks(blank));
    lemma_reads_concat(text, at, seq![mark(TokenType::NEWLINE)], breaks(blank));
    blank
}

/// A name that was required and found.
proof fn lemma_name_parsed(text: Seq<char>, at: nat, s: ParserState) -> (name: Seq<char>)
    requires
        under_way(text, at, s),
        !placed(text, at, s).need_name().failed(),
    ensures
        placed(text, at, s).need_name() == placed(text, at, s),
        placed(text, at, s).current is Some,
        kind_of(text, at) == TokenType::IDENT,
        name == placed(text, at, s).word(),
        reads(text, at, seq![name_piece(name)]),
        shows(item(text, at), name_piece(name)),
{
    let name = placed(text, at, s).word();
    lemma_reads_one(text, at, name_piece(name));
    name
}

/// A `PRINT` statement that was recognised, without the line breaks that end it.
proof fn lemma_print_parsed(text: Seq<char>, at: nat, s: ParserState) -> (statement: Statement)
    requires
        under_way(text, at, s),
        placed(text, at, s).current is Some,
        kind_of(text, at) == TokenType::PRINT,
        !placed(text, at, s).advance().print_rest().failed(),
    ensures
        statement.well_formed(),
        statement.admissible(s),
        reads(text, at, statement.tokens()),
        placed(text, at, s).advance().print_rest() == placed(
            text,
            at + statement.tokens().len(),
            statement.apply(s),
        ),
        under_way(text, at + statement.tokens().len(), statement.apply(s)),
{
    reveal(ParserState::expression);
    let here = placed(text, at, s);
    if here.advance().failed() {
        lemma_failure_stays(here.advance());
    }
    lemma_passed(text, at, s, TokenType::PRINT);
    let second = placed(text, at + 1, s);
    assert(second.current is Some);
    if kind_of(text, at + 1) == TokenType::STRING {
        let literal = second.word();
        let s1 = s.emit_line(print_text_call(literal));
        assert(second.emit_line(print_text_call(literal)) == placed(text, at + 1, s1));
        lemma_moved(text, at + 1, s1);
        let piece = Piece { kind: TokenType::STRING, text: literal };
        lemma_reads_one(text, at + 1, piece);
        let statement = Statement::PrintText { literal };
        assert(statement.tokens() =~= seq![mark(TokenType::PRINT)] + seq![piece]);
        lemma_reads_concat(text, at, seq![mark(TokenType::PRINT)], seq![piece]);
        statement
    } else {
        let s1 = s.emit(print_value_open());
        assert(second.emit(print_value_open()) == placed(text, at + 1, s1));
        assert(second.print_rest() == placed(text, at + 1, s1).expression().emit_line("));"@));
        if placed(text, at + 1, s1).expression().failed() {
            lemma_failure_stays(placed(text, at + 1, s1).expression());
        }
        let value = lemma_expression_parsed(text, at + 1, s1);
        lemma_expression_admissible(value, s1, s);
        lemma_operations_frame(value.rest, value.first.apply(s1));
        let after = (at + 1 + value.tokens().len()) as nat;
        assert(placed(text, after, value.apply(s1)).emit_line("));"@) == placed(
            text,
            after,
            value.apply(s1).emit_line("));"@),
        ));
        lemma_reads_concat(text, at, seq![mark(TokenType::PRINT)], value.tokens());
        Statement::PrintValue { value }
    }
}

/// A `LABEL` statement that was recognised, without the line breaks that end it.
proof fn lemma_label_parsed(text: Seq<char>, at: nat, s: ParserState) -> (statement: Statement)
    requires
        under_way(text, at, s),
        placed(text, at, s).current is Some,
        kind_of(text, at) == TokenType::LABEL,
        !placed(text, at, s).advance().label_rest().failed(),
    ensures
        statement.well_formed(),
        statement.admissible(s),
        reads(text, at, statement.tokens()),
        placed(text, at, s).advance().label_rest() == placed(text, at + 2, statement.apply(s)),
        statement.tokens().len() == 2,
        under_way(text, at + 2, statement.apply(s)),
{
    let here = placed(text, at, s);
    if here.advance().failed() {
        lemma_failure_stays(here.advance());
    }
    lemma_passed(text, at, s, TokenType::LABEL);
    let second = placed(text, at + 1, s);
    let name = lemma_name_parsed(text, at + 1, s);
    let statement = Statement::Label { name };
    let s1 = statement.apply(s);
    assert(second.label(name).emit(name).emit_line(":"@) == placed(text, at + 1, s1));
    lemma_moved(text, at + 1, s1);
    assert(statement.tokens() =~= seq![mark(TokenType::LABEL)] + seq![name_piece(name)]);
    lemma_reads_concat(text, at, seq![mark(TokenType::LABEL)], seq![name_piece(name)]);
    statement
}

/// A `GOTO` statement that was recognised, without the line breaks that end it.
proof fn lemma_goto_parsed(text: Seq<char>, at: nat, s: ParserState) -> (statement: Statement)
    requires
        under_way(text, at, s),
        placed(text, at, s).current is Some,
        kind_of(text, at) == TokenType::GOTO,
        !placed(text, at, s).advance().goto_rest().failed(),
    ensures
        statement.well_formed(),
        statement.admissible(s),
        reads(text, at, statement.tokens()),
        placed(text, at, s).advance().goto_rest() == placed(text, at + 2, statement.apply(s)),
        statement.tokens().len() == 2,
        under_way(text, at + 2, statement.apply(s)),
{
    let here = placed(text, at, s);
    if here.advance().failed() {
        lemma_failure_stays(here.advance());
    }
    lemma_passed(text, at, s, TokenType::GOTO);
    let second = placed(text, at + 1, s);
    let name = lemma_name_parsed(text, at + 1, s);
    let statement = Statement::Goto { name };
    let s1 = statement.apply(s);
    assert(second.refer(name).emit_line(goto_line(name)) == placed(text, at + 1, s1));
    lemma_moved(text, at + 1, s1);
    assert(statement.tokens() =~= seq![mark(TokenType::GOTO)] + seq![name_piece(name)]);
    lemma_reads_concat(text, at, seq![mark(TokenType::GOTO)], seq![name_piece(name)]);
    statement
}

/// An `INPUT` statement that was recognised, without the line breaks that end it.
proof fn lemma_input_parsed(text: Seq<char>, at: nat, s: ParserState) -> (statement: Statement)
    requires
        under_way(text, at, s),
        placed(text, at, s).current is Some,
        kind_of(text, at) == TokenType::INPUT,
        !placed(text, at, s).advance().input_rest().failed(),
    ensures
        statement.well_formed(),
        statement.admissible(s),
        reads(text, at, statement.tokens()),
        placed(text, at, s).advance().input_rest() == placed(text, at + 2, statement.apply(s)),
        statement.tokens().len() == 2,
        under_way(text, at + 2, statement.apply(s)),
{
    let here = placed(text, at, s);
    if here.advance().failed() {
        lemma_failure_stays(here.advance());
    }
    lemma_passed(text, at, s, TokenType::INPUT);
    let second = placed(text, at + 1, s);
    let name = lemma_name_parsed(text, at + 1, s);
    let statement = Statement::Input { name };
    let s1 = statement.apply(s);
    assert(second.declare(name).emit_line(input_guard(name)).emit("scanf(\"%"@).emit_line(
        "*s\");"@,
    ).emit_line("}"@) == placed(text, at + 1, s1));
    lemma_moved(text, at + 1, s1);
    assert(statement.tokens() =~= seq![mark(TokenType::INPUT)] + seq![name_piece(name)]);
    lemma_reads_concat(text, at, seq![mark(TokenType::INPUT)], seq![name_piece(name)]);
    statement
}

/// A `LET` statement that was recognised, without the line breaks that end it.
proof fn lemma_let_parsed(text: Seq<char>, at: nat, s: ParserState) -> (statement: Statement)
    requires
        under_way(text, at, s),
        placed(text, at, s).current is Some,
        kind_of(text, at) == TokenType::LET,
        !placed(text, at, s).advance().let_rest().failed(),
    ensures
        statement.well_formed(),
        statement.admissible(s),
        reads(text, at, statement.tokens()),
        placed(text, at, s).advance().let_rest() == placed(
            text,
            at + statement.tokens().len(),
            statement.apply(s),
        ),
        under_way(text, at + statement.tokens().len(), statement.apply(s)),
{
    reveal(ParserState::expression);
    let here = placed(text, at, s);
    if here.advance().failed() {
        lemma_failure_stays(here.advance());
    }
    lemma_passed(text, at, s, TokenType::LET);
    let second = placed(text, at + 1, s);
    let name = lemma_name_parsed(text, at + 1, s);
    let s1 = s.declare(name).emit(assignment_head(name));
    assert(second.declare(name).emit(assignment_head(name)) == placed(text, at + 1, s1));
    let named = placed(text, at + 1, s1);
    assert(second.let_rest() == named.advance().expect(TokenType::EQ).expression().emit_line(
        ";"@,
    ));
    if named.advance().failed() {
        lemma_failure_stays(named.advance());
    }
    lemma_moved(text, at + 1, s1);
    let third = placed(text, at + 2, s1);
    if third.expect(TokenType::EQ).failed() {
        lemma_failure_stays(third.expect(TokenType::EQ));
    }
    lemma_passed(text, at + 2, s1, TokenType::EQ);
    let fourth = placed(text, at + 3, s1);
    assert(third.expect(TokenType::EQ) == fourth);
    if fourth.expression().failed() {
        lemma_failure_stays(fourth.expression());
    }
    let value = lemma_expression_parsed(text, at + 3, s1);
    lemma_expression_admissible(value, s1, s.declare(name));
    lemma_operations_frame(value.rest, value.first.apply(s1));
    let after = (at + 3 + value.tokens().len()) as nat;
    assert(placed(text, after, value.apply(s1)).emit_line(";"@) == placed(
        text,
        after,
        value.apply(s1).emit_line(";"@),
    ));
    let head = seq![mark(TokenType::LET), name_piece(name), mark(TokenType::EQ)];
    assert(head =~= seq![mark(TokenType::LET)] + seq![name_piece(name)] + seq![
        mark(TokenType::EQ),
    ]);
    lemma_reads_concat(text, at, seq![mark(TokenType::LET)], seq![name_piece(name)]);
    lemma_reads_concat(
        text,
        at,
        seq![mark(TokenType::LET)] + seq![name_piece(name)],
        seq![mark(TokenType::EQ)],
    );
    lemma_reads_concat(text, at, head, value.tokens());
    Statement::Let { name, value }
}

/// The head of a block statement that was recognised: its condition, and the line breaks
/// after the head beyond the first.
proof fn lemma_block_head_parsed(
    text: Seq<char>,
    at: nat,
    s: ParserState,
    keyword: TokenType,
    opening: Seq<char>,
    separator: TokenType,
) -> (found: (Comparison, nat))
    requires
        under_way(text, at, s),
        placed(text, at, s).current is Some,
        kind_of(text, at) == keyword,
        keyword == TokenType::IF || keyword == TokenType::WHILE,
        separator == TokenType::THEN || separator == TokenType::REPEAT,
        !placed(text, at, s).advance().block_head(opening, separator).failed(),
    ensures
        found.0.well_formed(),
        found.0.admissible(s),
        reads(
            text,
            at,
            seq![mark(keyword)] + found.0.tokens() + seq![mark(separator)] + breaks(1 + found.1),
        ),
        placed(text, at, s).advance().block_head(opening, separator) == placed(
            text,
            at + 1 + found.0.tokens().len() + 2 + found.1,
            block_entered(found.0, opening, s),
        ),
        under_way(
            text,
            at + 1 + found.0.tokens().len() + 2 + found.1,
            block_entered(found.0, opening, s),
        ),
{
    reveal(ParserState::block_head);
    let here = placed(text, at, s);
    if here.advance().failed() {
        lemma_failure_stays(here.advance());
        lemma_failure_stays(here.advance().emit(opening));
    }
    lemma_passed(text, at, s, keyword);
    let s1 = s.emit(opening);
    assert(placed(text, at + 1, s).emit(opening) == placed(text, at + 1, s1));
    let compared = placed(text, at + 1, s1).comparison();
    if compared.failed() {
        lemma_failure_stays(compared);
    }
    let condition = lemma_comparison_parsed(text, at + 1, s1);
    lemma_comparison_admissible(condition, s1, s);
    lemma_comparison_frame(condition, s1);
    let second = (at + 1 + condition.tokens().len()) as nat;
    let s2 = condition.apply(s1);
    let wanted = placed(text, second, s2).expect(separator);
    if wanted.failed() {
        lemma_failure_stays(wanted);
    }
    lemma_passed(text, second, s2, separator);
    assert(wanted == placed(text, second + 1, s2));
    if wanted.line_end().failed() {
        lemma_failure_stays(wanted.line_end());
    }
    let gap = lemma_line_end_parsed(text, second + 1, s2);
    let inside = (second + 2 + gap) as nat;
    assert(placed(text, inside, s2).emit_line("){"@) == placed(
        text,
        inside,
        block_entered(condition, opening, s),
    ));
    let key = seq![mark(keyword)];
    let sep = seq![mark(separator)];
    lemma_reads_concat(text, at, key, condition.tokens());
    lemma_reads_concat(text, at, key + condition.tokens(), sep);
    lemma_reads_concat(text, at, key + condition.tokens() + sep, breaks(1 + gap));
    (condition, gap)
}

/// The end of a block statement that was recognised: its closing keyword, and the line
/// breaks after it, one and `blank` more.
proof fn lemma_block_end_parsed(text: Seq<char>, at: nat, s: ParserState, closer: TokenType) -> (blank:
    nat)
    requires
        under_way(text, at, s),
        !is_copied(closer),
        !placed(text, at, s).expect(closer).emit_line("}"@).line_end().failed(),
    ensures
        reads(text, at, seq![mark(closer)] + breaks(1 + blank)),
        placed(text, at, s).expect(closer).emit_line("}"@).line_end() == placed(
            text,
            at + 2 + blank,
            s.emit_line("}"@),
        ),
        under_way(text, at + 2 + blank, s.emit_line("}"@)),
{
    let here = placed(text, at, s);
    if here.expect(closer).failed() {
        lemma_failure_stays(here.expect(closer));
    }
    lemma_passed(text, at, s, closer);
    assert(placed(text, at + 1, s).emit_line("}"@) == placed(text, at + 1, s.emit_line("}"@)));
    let blank = lemma_line_end_parsed(text, at + 1, s.emit_line("}"@));
    lemma_reads_concat(text, at, seq![mark(closer)], breaks(1 + blank));
    blank
}

/// A block statement that was recognised, with the line breaks that end it: its
/// condition, the line breaks after its head beyond the first, its statements, and the
/// line breaks after it beyond the first.
proof fn lemma_block_statement_parsed(
    text: Seq<char>,
    at: nat,
    s: ParserState,
    keyword: TokenType,
    opening: Seq<char>,
    separator: TokenType,
    closer: TokenType,
) -> (found: (Comparison, nat, Seq<Line>, nat))
    requires
        is_block_form(keyword, opening, separator, closer),
        under_way(text, at, s),
        placed(text, at, s).current is Some,
        kind_of(text, at) == keyword,
        !placed(text, at, s).statement().failed(),
    ensures
        found.0.well_formed(),
        found.0.admissible(s),
        lines_well_formed(found.2),
        lines_admissible(found.2, block_entered(found.0, opening, s)),
        reads(
            text,
            at,
            block_tokens(keyword, found.0, separator, found.1, lines_tokens(found.2), closer)
                + breaks(1 + found.3),
        ),
        placed(text, at, s).statement() == placed(
            text,
            at + block_tokens(
                keyword,
                found.0,
                separator,
                found.1,
                lines_tokens(found.2),
                closer,
            ).len() + 1 + found.3,
            lines_apply(found.2, block_entered(found.0, opening, s)).emit_line("}"@),
        ),
        under_way(
            text,
            at + block_tokens(
                keyword,
                found.0,
                separator,
                found.1,
                lines_tokens(found.2),
                closer,
            ).len() + 1 + found.3,
            lines_apply(found.2, block_entered(found.0, opening, s)).emit_line("}"@),
        ),
    decreases placed(text, at, s).remaining(), 0nat,
{
    let here = placed(text, at, s);
    lemma_cursor_after(text, at + 2);
    let head = here.advance().block_head(opening, separator);
    assert(!head.failed());
    let (condition, gap) = lemma_block_head_parsed(text, at, s, keyword, opening, separator);
    lemma_advance(here);
    lemma_cursor_after(text, at + 3);
    lemma_block_head(here.advance(), opening, separator);
    assert(head.progressed(here));
    let inside = (at + 1 + condition.tokens().len() + 2 + gap) as nat;
    let entered = block_entered(condition, opening, s);
    let read = head.block();
    assert(here.statement() == read.expect(closer).emit_line("}"@).line_end());
    if read.failed() {
        lemma_failure_stays(read);
    }
    let body = lemma_block_parsed(text, inside, entered);
    let closing = (inside + lines_tokens(body).len()) as nat;
    let done = lines_apply(body, entered);
    let blank = lemma_block_end_parsed(text, closing, done, closer);
    let front = seq![mark(keyword)] + condition.tokens() + seq![mark(separator)] + breaks(
        1 + gap,
    );
    let all = block_tokens(keyword, condition, separator, gap, lines_tokens(body), closer);
    assert(all + breaks(1 + blank) =~= front + (lines_tokens(body) + (seq![mark(closer)] + breaks(
        1 + blank,
    ))));
    lemma_reads_concat(text, closing, seq![mark(closer)], breaks(1 + blank));
    lemma_reads_concat(text, inside, lines_tokens(body), seq![mark(closer)] + breaks(1 + blank));
    lemma_reads_concat(
        text,
        at,
        front,
        lines_tokens(body) + (seq![mark(closer)] + breaks(1 + blank)),
    );
    (condition, gap, body, blank)
}

/// A run of statements with one more statement before it.
proof fn lemma_lines_prepended(
    text: Seq<char>,
    at: nat,
    s: ParserState,
    line: Line,
    tail: Seq<Line>,
) -> (lines: Seq<Line>)
    requires
        line.statement.well_formed(),
        line.statement.admissible(s),
        reads(text, at, line.statement.tokens() + breaks(1 + line.blank)),
        lines_well_formed(tail),
        lines_admissible(tail, line.statement.apply(s)),
        reads(text, at + line.statement.tokens().len() + 1 + line.blank, lines_tokens(tail)),
    ensures
        lines == seq![line] + tail,
        lines_well_formed(lines),
        lines_admissible(lines, s),
        reads(text, at, lines_tokens(lines)),
        lines_apply(lines, s) == lines_apply(tail, line.statement.apply(s)),
        lines_tokens(lines).len() == line.statement.tokens().len() + 1 + line.blank
            + lines_tokens(tail).len(),
{
    let lines = seq![line] + tail;
    assert(lines.drop_first() =~= tail);
    assert(lines[0] == line);
    lemma_reads_concat(
        text,
        at,
        line.statement.tokens() + breaks(1 + line.blank),
        lines_tokens(tail),
    );
    lines
}

/// A run of statements that was recognised, up to a token that begins none.
proof fn lemma_block_parsed(text: Seq<char>, at: nat, s: ParserState) -> (lines: Seq<Line>)
    requires
        under_way(text, at, s),
        !placed(text, at, s).block().failed(),
    ensures
        lines_well_formed(lines),
        lines_admissible(lines, s),
        reads(text, at, lines_tokens(lines)),
        placed(text, at, s).block() == placed(
            text,
            at + lines_tokens(lines).len(),
            lines_apply(lines, s),
        ),
        under_way(text, at + lines_tokens(lines).len(), lines_apply(lines, s)),
        placed(text, at + lines_tokens(lines).len(), s).current is Some,
        !begins_statement(kind_of(text, at + lines_tokens(lines).len())),
    decreases placed(text, at, s).remaining(), 2nat,
{
    let here = placed(text, at, s);
    lemma_cursor_after(text, at + 2);
    assert(here.current is Some);
    if !begins_statement(kind_of(text, at)) {
        assert(here.block() == here);
        lemma_reads_none(text, at);
        Seq::empty()
    } else {
        let next = here.statement();
        lemma_statement(here);
        if next.failed() {
            lemma_failure_stays(next);
        }
        assert(next.progressed(here));
        assert(here.block() == next.block());
        let line = lemma_statement_parsed(text, at, s);
        let after = (at + line.statement.tokens().len() + 1 + line.blank) as nat;
        let tail = lemma_block_parsed(text, after, line.statement.apply(s));
        lemma_lines_prepended(text, at, s, line, tail)
    }
}

/// A statement that was recognised, with the line breaks that end it.
proof fn lemma_statement_parsed(text: Seq<char>, at: nat, s: ParserState) -> (line: Line)
    requires
        under_way(text, at, s),
        !placed(text, at, s).statement().failed(),
    ensures
        line.statement.well_formed(),
        line.statement.admissible(s),
        reads(text, at, line.statement.tokens() + breaks(1 + line.blank)),
        placed(text, at, s).statement() == placed(
            text,
            at + line.statement.tokens().len() + 1 + line.blank,
            line.statement.apply(s),
        ),
        under_way(
            text,
            at + line.statement.tokens().len() + 1 + line.blank,
            line.statement.apply(s),
        ),
    decreases placed(text, at, s).remaining(), 1nat,
{
    reveal(ParserState::simple_statement);
    let here = placed(text, at, s);
    assert(here.current is Some);
    let kind = kind_of(text, at);
    if kind == TokenType::IF {
        let found = lemma_block_statement_parsed(
            text,
            at,
            s,
            TokenType::IF,
            "if("@,
            TokenType::THEN,
            TokenType::ENDIF,
        );
        Line {
            statement: Statement::If { condition: found.0, blank: found.1, body: found.2 },
            blank: found.3,
        }
    } else if kind == TokenType::WHILE {
        let found = lemma_block_statement_parsed(
            text,
            at,
            s,
            TokenType::WHILE,
            "while("@,
            TokenType::REPEAT,
            TokenType::ENDWHILE,
        );
        Line {
            statement: Statement::While { condition: found.0, blank: found.1, body: found.2 },
            blank: found.3,
        }
    } else {
        let simple = here.simple_statement();
        assert(here.statement() == simple.line_end());
        if simple.failed() {
            lemma_failure_stays(simple);
        }
        let statement = if kind == TokenType::PRINT {
            lemma_print_parsed(text, at, s)
        } else if kind == TokenType::LABEL {
            lemma_label_parsed(text, at, s)
        } else if kind == TokenType::GOTO {
            lemma_goto_parsed(text, at, s)
        } else if kind == TokenType::LET {
            lemma_let_parsed(text, at, s)
        } else {
            lemma_input_parsed(text, at, s)
        };
        let after = (at + statement.tokens().len()) as nat;
        let blank = lemma_line_end_parsed(text, after, statement.apply(s));
        lemma_reads_concat(text, at, statement.tokens(), breaks(1 + blank));
        Line { statement, blank }
    }
}

/// A parse of a whole text that succeeded is the parse of a program.
pub proof fn lemma_program_parsed(text: Seq<char>) -> (program: Program)
    requires
        !ParserState::start(text).program().failed(),
    ensures
        program.well_formed(),
        program.admissible(ParserState::fresh(text, 0, Seq::empty(), Seq::empty(), Seq::empty())),
        reads(text, 0, program.tokens()),
        !(item(text, program.tokens().len()) is Fatal),
{
    let fresh = ParserState::fresh(text, 0, Seq::empty(), Seq::empty(), Seq::empty());
    let start = ParserState::start(text);
    let opened = Program::opened(start);
    let passed = opened.line_breaks();
    let read = passed.block();
    let ended = read.end_of_input();
    if start.failed() {
        lemma_failure_stays(start);
    }
    if passed.failed() {
        lemma_failure_stays(passed);
    }
    if read.failed() {
        lemma_failure_stays(read);
    }
    if ended.failed() {
        lemma_failure_stays(ended);
        lemma_failure_stays(ended.emit_line("return 0;"@));
    }
    if fresh.advance().failed() {
        lemma_failure_stays(fresh.advance());
    }
    assert(cursor_after(text, 0) == 0);
    assert(!(item(text, 0) is Fatal));
    assert(cursor_after(text, 1) == fresh.advance().cursor);
    assert(!(item(text, 1) is Fatal));
    assert(legible(text, 2)) by {
        reveal(legible);
    }
    lemma_start_is_placed(text);
    assert(opened == placed(text, 0, Program::opened(fresh)));
    let blank = lemma_breaks_parsed(text, 0, Program::opened(fresh));
    let lines = lemma_block_parsed(text, blank, Program::opened(fresh));
    let program = Program { blank, lines };
    let last = (blank + lines_tokens(lines).len()) as nat;
    assert(kind_of(text, last) == TokenType::EOF);
    lemma_reads_one(text, last, mark(TokenType::EOF));
    lemma_reads_concat(text, 0, breaks(blank), lines_tokens(lines));
    lemma_reads_concat(text, 0, breaks(blank) + lines_tokens(lines), seq![mark(TokenType::EOF)]);
    lemma_legible_at(text, last + 2, last + 1);
    let done = lines_apply(lines, Program::opened(fresh));
    assert(placed(text, last, done).emit_line("return 0;"@).emit_line("}"@) == placed(
        text,
        last,
        program.apply(fresh),
    ));
    program
}

} // verus!
