//! The parser recognises what the grammar describes: given the tokens of a well-formed
//! piece of a program, each production consumes exactly those tokens and leaves the names
//! and the output as the structure of the program says.
use vstd::prelude::*;
use crate::grammar::{
    assignment_head, goto_line, input_guard, print_text_call, print_value_open, ParserState,
};
use crate::progress::{
    lemma_advance, lemma_block_head, lemma_copy_token, lemma_expression, lemma_statement,
    lemma_term, lemma_unary,
};
use crate::stream::{
    is_copied, item, legible, lemma_cursor_after, lemma_legible_at, lemma_placed_advance,
    lemma_reads_at, lemma_reads_concat, lemma_reads_legible, lemma_start_is_placed, placed, reads,
    shows, Piece,
};
use crate::syntax::{
    block_entered, block_tokens, breaks, is_operator, lines_admissible, lines_apply,
    lines_tokens, lines_well_formed, mark, name_piece, operations_apply, operations_tokens,
    relations_apply, relations_tokens, symbol, Comparison, Expression, Line, Operand, Program,
    Statement,
};
use crate::token::{begins_statement, is_relational_kind, TokenType};

verus! {

/// The calls for a token from number `at` on find `pieces` and then one more token, all
/// among the first `total` calls, and the call after those does not fail either.
pub open spec fn stands(text: Seq<char>, total: nat, at: nat, pieces: Seq<Piece>) -> bool {
    &&& legible(text, total + 1)
    &&& reads(text, at, pieces)
    &&& at + pieces.len() < total
    &&& item(text, at + pieces.len()) is Token
}

/// The kind of the token that the call number `at` finds.
pub open spec fn kind_of(text: Seq<char>, at: nat) -> TokenType {
    item(text, at)->token.kind
}

/// With the window on a token whose text is copied, copying it emits the text and moves
/// the window on.
pub(crate) proof fn lemma_copies(text: Seq<char>, total: nat, at: nat, s: ParserState, piece: Piece)
    requires
        legible(text, total + 1),
        at + 1 < total,
        shows(item(text, at), piece),
        is_copied(piece.kind),
        !s.failed(),
    ensures
        placed(text, at, s).copy_token() == placed(text, at + 1, s.emit(piece.text)),
{
    lemma_legible_at(text, total + 1, at + 2);
    lemma_placed_advance(text, at, s.emit(piece.text));
    assert(placed(text, at, s).emit(piece.text) == placed(text, at, s.emit(piece.text)));
}

/// With the window on a token, moving on leads to the next token.
pub(crate) proof fn lemma_passes(text: Seq<char>, total: nat, at: nat, s: ParserState)
    requires
        legible(text, total + 1),
        at + 1 < total,
        !s.failed(),
    ensures
        placed(text, at, s).advance() == placed(text, at + 1, s),
        0 <= placed(text, at, s).cursor,
{
    lemma_legible_at(text, total + 1, at + 2);
    lemma_placed_advance(text, at, s);
    lemma_cursor_after(text, at + 2);
}

/// A number or a variable, with or without a sign.
pub(crate) proof fn lemma_operand(text: Seq<char>, total: nat, at: nat, s: ParserState, x: Operand)
    requires
        stands(text, total, at, x.tokens()),
        x.well_formed(),
        x.admissible(s),
        !s.failed(),
    ensures
        placed(text, at, s).unary() == placed(text, at + x.tokens().len(), x.apply(s)),
{
    let tokens = x.tokens();
    lemma_reads_at(text, at, tokens, 0);
    match x.sign {
        Some(sign) => {
            lemma_reads_at(text, at, tokens, 1);
            lemma_copies(text, total, at, s, tokens[0]);
            lemma_copies(text, total, at + 1, s.emit(symbol(sign)), tokens[1]);
        },
        None => {
            lemma_copies(text, total, at, s, tokens[0]);
        },
    }
}

/// The operators and operands that follow the first operand of an expression.
pub(crate) proof fn lemma_operations(
    text: Seq<char>,
    total: nat,
    at: nat,
    s: ParserState,
    rest: Seq<(TokenType, Operand)>,
)
    requires
        stands(text, total, at, operations_tokens(rest)),
        !is_operator(kind_of(text, at + operations_tokens(rest).len())),
        forall|i: int|
            0 <= i < rest.len() ==> is_operator((#[trigger] rest[i]).0) && rest[i].1.well_formed()
                && rest[i].1.admissible(s),
        !s.failed(),
    ensures
        placed(text, at, s).factors().summands() == placed(
            text,
            at + operations_tokens(rest).len(),
            operations_apply(rest, s),
        ),
    decreases rest.len(),
{
    let here = placed(text, at, s);
    lemma_cursor_after(text, at + 2);
    if rest.len() == 0 {
        assert(here.factors() == here);
        assert(here.summands() == here);
    } else {
        let op = rest[0].0;
        let x = rest[0].1;
        let tail = rest.drop_first();
        let head = seq![mark(op)];
        lemma_reads_concat(text, at, head + x.tokens(), operations_tokens(tail));
        lemma_reads_concat(text, at, head, x.tokens());
        assert(head[0] == mark(op));
        lemma_reads_at(text, at, head, 0);
        let s1 = s.emit(symbol(op));
        lemma_copies(text, total, at, s, mark(op));
        assert(here.copy_token() == placed(text, at + 1, s1));
        assert(x.tokens().len() >= 1);
        lemma_reads_at(text, (at + 1) as nat, x.tokens(), 0);
        let after = at + 1 + x.tokens().len();
        if operations_tokens(tail).len() > 0 {
            lemma_reads_at(text, after as nat, operations_tokens(tail), 0);
        }
        assert(item(text, after as nat) is Token);
        lemma_operand(text, total, at + 1, s1, x);
        let s2 = x.apply(s1);
        let next = placed(text, after as nat, s2);
        assert(placed(text, at + 1, s1).unary() == next);
        lemma_copy_token(here);
        lemma_cursor_after(text, at + 3);
        lemma_unary(here.copy_token());
        assert(next.progressed(here));
        assert forall|i: int| 0 <= i < tail.len() implies is_operator((#[trigger] tail[i]).0)
            && tail[i].1.well_formed() && tail[i].1.admissible(s2) by {
            assert(tail[i] == rest[i + 1]);
        }
        lemma_operations(text, total, after as nat, s2, tail);
        if op == TokenType::ASTERISK || op == TokenType::SLASH {
            assert(here.factors() == next.factors());
        } else {
            assert(here.factors() == here);
            assert(here.copy_token().term() == next.factors());
            lemma_term(here.copy_token());
            assert(here.summands() == next.factors().summands());
        }
    }
}

/// An expression, up to a token that is no operator.
pub proof fn lemma_expression_recognized(
    text: Seq<char>,
    total: nat,
    at: nat,
    s: ParserState,
    x: Expression,
)
    requires
        stands(text, total, at, x.tokens()),
        !is_operator(kind_of(text, at + x.tokens().len())),
        x.well_formed(),
        x.admissible(s),
        !s.failed(),
    ensures
        placed(text, at, s).expression() == placed(text, at + x.tokens().len(), x.apply(s)),
{
    reveal(ParserState::expression);
    lemma_reads_concat(text, at, x.first.tokens(), operations_tokens(x.rest));
    let after = at + x.first.tokens().len();
    if operations_tokens(x.rest).len() > 0 {
        lemma_reads_at(text, after as nat, operations_tokens(x.rest), 0);
    }
    lemma_operand(text, total, at, s, x.first);
    lemma_operations(text, total, after as nat, x.first.apply(s), x.rest);
}

/// An expression changes nothing but the body of the output.
pub(crate) proof fn lemma_operations_frame(rest: Seq<(TokenType, Operand)>, s: ParserState)
    ensures
        operations_apply(rest, s) == (ParserState { body: operations_apply(rest, s).body, ..s }),
    decreases rest.len(),
{
    if rest.len() > 0 {
        lemma_operations_frame(rest.drop_first(), rest[0].1.apply(s.emit(symbol(rest[0].0))));
    }
}

/// Relational operators and expressions change nothing but the body of the output.
pub(crate) proof fn lemma_relations_frame(rest: Seq<(TokenType, Expression)>, s: ParserState)
    ensures
        relations_apply(rest, s) == (ParserState { body: relations_apply(rest, s).body, ..s }),
    decreases rest.len(),
{
    if rest.len() > 0 {
        let s1 = s.emit(symbol(rest[0].0));
        lemma_operations_frame(rest[0].1.rest, rest[0].1.first.apply(s1));
        lemma_relations_frame(rest.drop_first(), rest[0].1.apply(s1));
    }
}

/// A comparison changes nothing but the body of the output.
pub(crate) proof fn lemma_comparison_frame(x: Comparison, s: ParserState)
    ensures
        x.apply(s) == (ParserState { body: x.apply(s).body, ..s }),
{
    lemma_operations_frame(x.first.rest, x.first.first.apply(s));
    lemma_relations_frame(x.rest, x.first.apply(s));
}

/// The relational operators and expressions that follow the first two expressions of a
/// comparison.
pub(crate) proof fn lemma_relations(
    text: Seq<char>,
    total: nat,
    at: nat,
    s: ParserState,
    rest: Seq<(TokenType, Expression)>,
)
    requires
        stands(text, total, at, relations_tokens(rest)),
        !is_operator(kind_of(text, at + relations_tokens(rest).len())),
        !is_relational_kind(kind_of(text, at + relations_tokens(rest).len())),
        forall|i: int|
            0 <= i < rest.len() ==> is_relational_kind((#[trigger] rest[i]).0)
                && rest[i].1.well_formed() && rest[i].1.admissible(s),
        !s.failed(),
    ensures
        placed(text, at, s).comparands() == placed(
            text,
            at + relations_tokens(rest).len(),
            relations_apply(rest, s),
        ),
    decreases rest.len(),
{
    let here = placed(text, at, s);
    lemma_cursor_after(text, at + 2);
    if rest.len() == 0 {
        assert(here.comparands() == here);
    } else {
        let tail = rest.drop_first();
        let next = lemma_relation(text, total, at, s, rest);
        lemma_copy_token(here);
        lemma_cursor_after(text, at + 3);
        lemma_expression(here.copy_token());
        let s2 = rest[0].1.apply(s.emit(symbol(rest[0].0)));
        lemma_operations_frame(rest[0].1.rest, rest[0].1.first.apply(s.emit(symbol(rest[0].0))));
        assert(next.progressed(here));
        assert forall|i: int| 0 <= i < tail.len() implies is_relational_kind(
            (#[trigger] tail[i]).0,
        ) && tail[i].1.well_formed() && tail[i].1.admissible(s2) by {
            assert(tail[i] == rest[i + 1]);
        }
        lemma_relations(
            text,
            total,
            (at + 1 + rest[0].1.tokens().len()) as nat,
            s2,
            tail,
        );
    }
}

/// The first relational operator of a run and the expression after it.
proof fn lemma_relation(
    text: Seq<char>,
    total: nat,
    at: nat,
    s: ParserState,
    rest: Seq<(TokenType, Expression)>,
) -> (next: ParserState)
    requires
        rest.len() > 0,
        stands(text, total, at, relations_tokens(rest)),
        !is_operator(kind_of(text, at + relations_tokens(rest).len())),
        is_relational_kind(rest[0].0),
        rest.len() > 1 ==> is_relational_kind(rest[1].0),
        rest[0].1.well_formed(),
        rest[0].1.admissible(s),
        !s.failed(),
    ensures
        placed(text, at, s).copy_token() == placed(text, at + 1, s.emit(symbol(rest[0].0))),
        next == placed(text, at, s).copy_token().expression(),
        next == placed(
            text,
            at + 1 + rest[0].1.tokens().len(),
            rest[0].1.apply(s.emit(symbol(rest[0].0))),
        ),
        is_relational_kind(placed(text, at, s).kind()),
        placed(text, at, s).current is Some,
        stands(
            text,
            total,
            at + 1 + rest[0].1.tokens().len(),
            relations_tokens(rest.drop_first()),
        ),
        at + 1 + rest[0].1.tokens().len() + relations_tokens(rest.drop_first()).len() == at
            + relations_tokens(rest).len(),
{
    let here = placed(text, at, s);
    let op = rest[0].0;
    let x = rest[0].1;
    let tail = rest.drop_first();
    let head = seq![mark(op)];
    lemma_reads_concat(text, at, head + x.tokens(), relations_tokens(tail));
    lemma_reads_concat(text, at, head, x.tokens());
    assert(head[0] == mark(op));
    lemma_reads_at(text, at, head, 0);
    let s1 = s.emit(symbol(op));
    lemma_copies(text, total, at, s, mark(op));
    let after = at + 1 + x.tokens().len();
    if tail.len() > 0 {
        assert(tail[0] == rest[1]);
        assert(relations_tokens(tail)[0] == mark(tail[0].0));
        lemma_reads_at(text, after as nat, relations_tokens(tail), 0);
    } else {
        assert(relations_tokens(tail).len() == 0);
    }
    lemma_expression_recognized(text, total, at + 1, s1, x);
    placed(text, after as nat, x.apply(s1))
}

/// A comparison, up to a token that is neither an operator nor a relational operator.
pub proof fn lemma_comparison_recognized(
    text: Seq<char>,
    total: nat,
    at: nat,
    s: ParserState,
    x: Comparison,
)
    requires
        stands(text, total, at, x.tokens()),
        !is_operator(kind_of(text, at + x.tokens().len())),
        !is_relational_kind(kind_of(text, at + x.tokens().len())),
        x.well_formed(),
        x.admissible(s),
        !s.failed(),
    ensures
        placed(text, at, s).comparison() == placed(text, at + x.tokens().len(), x.apply(s)),
{
    reveal(ParserState::comparison);
    lemma_reads_concat(text, at, x.first.tokens(), relations_tokens(x.rest));
    let second = (at + x.first.tokens().len()) as nat;
    assert(relations_tokens(x.rest)[0] == mark(x.rest[0].0));
    lemma_reads_at(text, second as nat, relations_tokens(x.rest), 0);
    lemma_expression_recognized(text, total, at, s, x.first);
    let s1 = x.first.apply(s);
    lemma_operations_frame(x.first.rest, x.first.first.apply(s));
    let tail = x.rest.drop_first();
    if x.rest.len() > 1 {
        assert(is_relational_kind(x.rest[1].0));
    }
    let next = lemma_relation(text, total, second, s1, x.rest);
    let s2 = x.rest[0].1.apply(s1.emit(symbol(x.rest[0].0)));
    lemma_operations_frame(x.rest[0].1.rest, x.rest[0].1.first.apply(s1.emit(symbol(x.rest[0].0))));
    assert forall|i: int| 0 <= i < tail.len() implies is_relational_kind((#[trigger] tail[i]).0)
        && tail[i].1.well_formed() && tail[i].1.admissible(s2) by {
        assert(tail[i] == x.rest[i + 1]);
    }
    lemma_relations(text, total, (second + 1 + x.rest[0].1.tokens().len()) as nat, s2, tail);
}

/// Line breaks up to a token that is none.
pub(crate) proof fn lemma_breaks(text: Seq<char>, total: nat, at: nat, s: ParserState, count: nat)
    requires
        stands(text, total, at, breaks(count)),
        kind_of(text, at + count) != TokenType::NEWLINE,
        !s.failed(),
    ensures
        placed(text, at, s).line_breaks() == placed(text, at + count, s),
    decreases count,
{
    let here = placed(text, at, s);
    lemma_cursor_after(text, at + 2);
    if count > 0 {
        let fewer = (count - 1) as nat;
        assert(breaks(count) =~= seq![mark(TokenType::NEWLINE)] + breaks(fewer));
        lemma_reads_concat(text, at, seq![mark(TokenType::NEWLINE)], breaks(fewer));
        lemma_reads_at(text, at, breaks(count), 0);
        lemma_passes(text, total, at, s);
        lemma_advance(here);
        lemma_breaks(text, total, at + 1, s, fewer);
    }
}

/// The line breaks that end a statement.
pub(crate) proof fn lemma_line_end_recognized(
    text: Seq<char>,
    total: nat,
    at: nat,
    s: ParserState,
    blank: nat,
)
    requires
        stands(text, total, at, breaks(1 + blank)),
        kind_of(text, at + 1 + blank) != TokenType::NEWLINE,
        !s.failed(),
    ensures
        placed(text, at, s).line_end() == placed(text, at + 1 + blank, s),
{
    assert(breaks(1 + blank) =~= seq![mark(TokenType::NEWLINE)] + breaks(blank));
    lemma_reads_concat(text, at, seq![mark(TokenType::NEWLINE)], breaks(blank));
    lemma_reads_at(text, at, breaks(1 + blank), 0);
    lemma_passes(text, total, at, s);
    if blank > 0 {
        lemma_reads_at(text, (at + 1) as nat, breaks(blank), 0);
    }
    lemma_breaks(text, total, at + 1, s, blank);
}

/// The keyword that a statement begins with.
pub open spec fn keyword(statement: Statement) -> TokenType {
    match statement {
        Statement::PrintText { literal } => TokenType::PRINT,
        Statement::PrintValue { value } => TokenType::PRINT,
        Statement::If { condition, blank, body } => TokenType::IF,
        Statement::While { condition, blank, body } => TokenType::WHILE,
        Statement::Label { name } => TokenType::LABEL,
        Statement::Goto { name } => TokenType::GOTO,
        Statement::Let { name, value } => TokenType::LET,
        Statement::Input { name } => TokenType::INPUT,
    }
}

/// A statement is written with two tokens or more, and its keyword comes first.
pub(crate) proof fn lemma_statement_begins(statement: Statement)
    ensures
        statement.tokens().len() >= 2,
        statement.tokens()[0] == mark(keyword(statement)),
{
}

/// What stands where a statement and the line breaks after it are read: the keyword, the
/// rest of the statement, and the line breaks.
proof fn lemma_statement_parts(
    text: Seq<char>,
    total: nat,
    at: nat,
    s: ParserState,
    statement: Statement,
    blank: nat,
)
    requires
        stands(text, total, at, statement.tokens() + breaks(1 + blank)),
        !s.failed(),
    ensures
        reads(text, at, statement.tokens()),
        stands(text, total, at + statement.tokens().len(), breaks(1 + blank)),
        kind_of(text, at + statement.tokens().len()) == TokenType::NEWLINE,
        item(text, at + statement.tokens().len()) is Token,
        placed(text, at, s).current is Some,
        placed(text, at, s).kind() == keyword(statement),
        placed(text, at, s).advance() == placed(text, at + 1, s),
        0 <= placed(text, at, s).cursor,
{
    lemma_statement_begins(statement);
    lemma_reads_concat(text, at, statement.tokens(), breaks(1 + blank));
    lemma_reads_at(text, at, statement.tokens(), 0);
    lemma_reads_at(text, (at + statement.tokens().len()) as nat, breaks(1 + blank), 0);
    lemma_passes(text, total, at, s);
}

proof fn lemma_print_text(
    text: Seq<char>,
    total: nat,
    at: nat,
    s: ParserState,
    literal: Seq<char>,
    blank: nat,
)
    requires
        stands(text, total, at, (Statement::PrintText { literal }).tokens() + breaks(1 + blank)),
        kind_of(text, at + 3 + blank) != TokenType::NEWLINE,
        !s.failed(),
    ensures
        placed(text, at, s).statement() == placed(
            text,
            at + 3 + blank,
            (Statement::PrintText { literal }).apply(s),
        ),
{
    reveal(ParserState::simple_statement);
    let statement = Statement::PrintText { literal };
    lemma_statement_parts(text, total, at, s, statement, blank);
    lemma_reads_at(text, at, statement.tokens(), 1);
    let s1 = s.emit_line(print_text_call(literal));
    assert(placed(text, at + 1, s).emit_line(print_text_call(literal)) == placed(text, at + 1, s1));
    lemma_passes(text, total, at + 1, s1);
    lemma_line_end_recognized(text, total, at + 2, s1, blank);
}

/// An expression at the end of a statement, what closes its translation, and the line
/// breaks after it.
proof fn lemma_value_tail(
    text: Seq<char>,
    total: nat,
    at: nat,
    s: ParserState,
    value: Expression,
    closing: Seq<char>,
    blank: nat,
)
    requires
        stands(text, total, at, value.tokens() + breaks(1 + blank)),
        kind_of(text, at + value.tokens().len() + 1 + blank) != TokenType::NEWLINE,
        value.well_formed(),
        value.admissible(s),
        !s.failed(),
    ensures
        placed(text, at, s).expression().emit_line(closing).line_end() == placed(
            text,
            at + value.tokens().len() + 1 + blank,
            value.apply(s).emit_line(closing),
        ),
        !value.apply(s).failed(),
        placed(text, at, s).current is Some,
        placed(text, at, s).kind() != TokenType::STRING,
{
    lemma_reads_concat(text, at, value.tokens(), breaks(1 + blank));
    let after = (at + value.tokens().len()) as nat;
    lemma_reads_at(text, after, breaks(1 + blank), 0);
    lemma_reads_at(text, at, value.tokens(), 0);
    lemma_expression_recognized(text, total, at, s, value);
    lemma_operations_frame(value.rest, value.first.apply(s));
    let s2 = value.apply(s).emit_line(closing);
    assert(placed(text, after, value.apply(s)).emit_line(closing) == placed(text, after, s2));
    lemma_line_end_recognized(text, total, after, s2, blank);
}

proof fn lemma_print_value(
    text: Seq<char>,
    total: nat,
    at: nat,
    s: ParserState,
    value: Expression,
    blank: nat,
)
    requires
        stands(text, total, at, (Statement::PrintValue { value }).tokens() + breaks(1 + blank)),
        kind_of(text, at + (Statement::PrintValue { value }).tokens().len() + 1 + blank)
            != TokenType::NEWLINE,
        value.well_formed(),
        value.admissible(s),
        !s.failed(),
    ensures
        placed(text, at, s).statement() == placed(
            text,
            at + (Statement::PrintValue { value }).tokens().len() + 1 + blank,
            (Statement::PrintValue { value }).apply(s),
        ),
        !(Statement::PrintValue { value }).apply(s).failed(),
{
    reveal(ParserState::simple_statement);
    let statement = Statement::PrintValue { value };
    let key = seq![mark(TokenType::PRINT)];
    assert(statement.tokens() + breaks(1 + blank) =~= key + (value.tokens() + breaks(1 + blank)));
    lemma_reads_concat(text, at, key, value.tokens() + breaks(1 + blank));
    lemma_reads_at(text, at, key, 0);
    lemma_passes(text, total, at, s);
    let here = placed(text, at, s);
    let second = placed(text, at + 1, s);
    assert(here.statement() == second.print_rest().line_end());
    let s1 = s.emit(print_value_open());
    assert(second.emit(print_value_open()) == placed(text, at + 1, s1));
    lemma_value_tail(text, total, at + 1, s1, value, "));"@, blank);
    assert(second.print_rest() == placed(text, at + 1, s1).expression().emit_line("));"@));
}

proof fn lemma_label(
    text: Seq<char>,
    total: nat,
    at: nat,
    s: ParserState,
    name: Seq<char>,
    blank: nat,
)
    requires
        stands(text, total, at, (Statement::Label { name }).tokens() + breaks(1 + blank)),
        kind_of(text, at + 3 + blank) != TokenType::NEWLINE,
        !s.labels.contains(name),
        !s.failed(),
    ensures
        placed(text, at, s).statement() == placed(
            text,
            at + 3 + blank,
            (Statement::Label { name }).apply(s),
        ),
{
    reveal(ParserState::simple_statement);
    let statement = Statement::Label { name };
    lemma_statement_parts(text, total, at, s, statement, blank);
    lemma_reads_at(text, at, statement.tokens(), 1);
    let s1 = statement.apply(s);
    let named = placed(text, at + 1, s);
    assert(named.label(name).emit(name).emit_line(":"@) == placed(text, at + 1, s1));
    lemma_passes(text, total, at + 1, s1);
    lemma_line_end_recognized(text, total, at + 2, s1, blank);
}

proof fn lemma_goto(
    text: Seq<char>,
    total: nat,
    at: nat,
    s: ParserState,
    name: Seq<char>,
    blank: nat,
)
    requires
        stands(text, total, at, (Statement::Goto { name }).tokens() + breaks(1 + blank)),
        kind_of(text, at + 3 + blank) != TokenType::NEWLINE,
        !s.failed(),
    ensures
        placed(text, at, s).statement() == placed(
            text,
            at + 3 + blank,
            (Statement::Goto { name }).apply(s),
        ),
{
    reveal(ParserState::simple_statement);
    let statement = Statement::Goto { name };
    lemma_statement_parts(text, total, at, s, statement, blank);
    lemma_reads_at(text, at, statement.tokens(), 1);
    let s1 = statement.apply(s);
    let named = placed(text, at + 1, s);
    assert(named.refer(name).emit_line(goto_line(name)) == placed(text, at + 1, s1));
    lemma_passes(text, total, at + 1, s1);
    lemma_line_end_recognized(text, total, at + 2, s1, blank);
}

proof fn lemma_input(
    text: Seq<char>,
    total: nat,
    at: nat,
    s: ParserState,
    name: Seq<char>,
    blank: nat,
)
    requires
        stands(text, total, at, (Statement::Input { name }).tokens() + breaks(1 + blank)),
        kind_of(text, at + 3 + blank) != TokenType::NEWLINE,
        !s.failed(),
    ensures
        placed(text, at, s).statement() == placed(
            text,
            at + 3 + blank,
            (Statement::Input { name }).apply(s),
        ),
{
    reveal(ParserState::simple_statement);
    let statement = Statement::Input { name };
    lemma_statement_parts(text, total, at, s, statement, blank);
    lemma_reads_at(text, at, statement.tokens(), 1);
    let s1 = statement.apply(s);
    let named = placed(text, at + 1, s);
    assert(named.declare(name).emit_line(input_guard(name)).emit("scanf(\"%"@).emit_line(
        "*s\");"@,
    ).emit_line("}"@) == placed(text, at + 1, s1));
    lemma_passes(text, total, at + 1, s1);
    lemma_line_end_recognized(text, total, at + 2, s1, blank);
}

proof fn lemma_let(
    text: Seq<char>,
    total: nat,
    at: nat,
    s: ParserState,
    name: Seq<char>,
    value: Expression,
    blank: nat,
)
    requires
        stands(text, total, at, (Statement::Let { name, value }).tokens() + breaks(1 + blank)),
        kind_of(text, at + (Statement::Let { name, value }).tokens().len() + 1 + blank)
            != TokenType::NEWLINE,
        value.well_formed(),
        value.admissible(s.declare(name)),
        !s.failed(),
    ensures
        placed(text, at, s).statement() == placed(
            text,
            at + (Statement::Let { name, value }).tokens().len() + 1 + blank,
            (Statement::Let { name, value }).apply(s),
        ),
        !(Statement::Let { name, value }).apply(s).failed(),
{
    reveal(ParserState::simple_statement);
    let statement = Statement::Let { name, value };
    let head = seq![mark(TokenType::LET), name_piece(name), mark(TokenType::EQ)];
    assert(statement.tokens() + breaks(1 + blank) =~= head + (value.tokens() + breaks(1 + blank)));
    lemma_reads_concat(text, at, head, value.tokens() + breaks(1 + blank));
    lemma_reads_at(text, at, head, 0);
    lemma_reads_at(text, at, head, 1);
    lemma_reads_at(text, at, head, 2);
    lemma_passes(text, total, at, s);
    let here = placed(text, at, s);
    let named = placed(text, at + 1, s);
    assert(here.statement() == named.let_rest().line_end());
    let s1 = s.declare(name).emit(assignment_head(name));
    assert(named.need_name() == named);
    assert(named.word() == name);
    assert(named.declare(name).emit(assignment_head(name)) == placed(text, at + 1, s1));
    lemma_passes(text, total, at + 1, s1);
    lemma_passes(text, total, at + 2, s1);
    assert(placed(text, at + 2, s1).expect(TokenType::EQ) == placed(text, at + 3, s1));
    assert(named.let_rest() == placed(text, at + 3, s1).expression().emit_line(";"@));
    lemma_value_tail(text, total, at + 3, s1, value, ";"@, blank);
}

/// A comparison is admissible wherever the same variables are declared.
pub(crate) proof fn lemma_comparison_admissible(x: Comparison, s: ParserState, t: ParserState)
    requires
        x.admissible(s),
        s.variables == t.variables,
    ensures
        x.admissible(t),
{
    assert forall|i: int| 0 <= i < x.rest.len() implies (#[trigger] x.rest[i]).1.admissible(t) by {
        assert(x.rest[i].1.admissible(s));
    }
}

/// The four spellings of a block statement.
pub open spec fn is_block_form(
    keyword: TokenType,
    opening: Seq<char>,
    separator: TokenType,
    closer: TokenType,
) -> bool {
    ||| keyword == TokenType::IF && opening == "if("@ && separator == TokenType::THEN && closer
        == TokenType::ENDIF
    ||| keyword == TokenType::WHILE && opening == "while("@ && separator == TokenType::REPEAT
        && closer == TokenType::ENDWHILE
}

/// The head of a block statement: its keyword, its condition, and the keyword and the line
/// breaks that end the head.
proof fn lemma_block_head_recognized(
    text: Seq<char>,
    total: nat,
    at: nat,
    s: ParserState,
    keyword: TokenType,
    opening: Seq<char>,
    condition: Comparison,
    separator: TokenType,
    blank: nat,
)
    requires
        stands(
            text,
            total,
            at,
            seq![mark(keyword)] + condition.tokens() + seq![mark(separator)] + breaks(1 + blank),
        ),
        kind_of(text, at + 1 + condition.tokens().len() + 2 + blank) != TokenType::NEWLINE,
        separator == TokenType::THEN || separator == TokenType::REPEAT,
        condition.well_formed(),
        condition.admissible(s),
        !s.failed(),
    ensures
        placed(text, at, s).advance().block_head(opening, separator) == placed(
            text,
            at + 1 + condition.tokens().len() + 2 + blank,
            block_entered(condition, opening, s),
        ),
        !block_entered(condition, opening, s).failed(),
        placed(text, at, s).current is Some,
        placed(text, at, s).kind() == keyword,
        0 <= placed(text, at, s).cursor,
{
    reveal(ParserState::block_head);
    let key = seq![mark(keyword)];
    let sep = seq![mark(separator)];
    lemma_reads_concat(text, at, key + condition.tokens() + sep, breaks(1 + blank));
    lemma_reads_concat(text, at, key + condition.tokens(), sep);
    lemma_reads_concat(text, at, key, condition.tokens());
    lemma_reads_at(text, at, key, 0);
    let second = (at + 1 + condition.tokens().len()) as nat;
    lemma_reads_at(text, second, sep, 0);
    lemma_reads_at(text, second + 1, breaks(1 + blank), 0);
    lemma_passes(text, total, at, s);
    let s1 = s.emit(opening);
    assert(placed(text, at + 1, s).emit(opening) == placed(text, at + 1, s1));
    lemma_comparison_admissible(condition, s, s1);
    lemma_comparison_recognized(text, total, at + 1, s1, condition);
    lemma_comparison_frame(condition, s1);
    let s2 = condition.apply(s1);
    lemma_passes(text, total, second, s2);
    assert(placed(text, second, s2).expect(separator) == placed(text, second + 1, s2));
    lemma_line_end_recognized(text, total, second + 1, s2, blank);
    let third = (second + 2 + blank) as nat;
    assert(placed(text, third, s2).emit_line("){"@) == placed(text, third, s2.emit_line("){"@)));
}

/// The end of a block statement: its closing keyword and the line breaks after it.
proof fn lemma_block_end_recognized(
    text: Seq<char>,
    total: nat,
    at: nat,
    s: ParserState,
    closer: TokenType,
    blank: nat,
)
    requires
        stands(text, total, at, seq![mark(closer)] + breaks(1 + blank)),
        kind_of(text, at + 2 + blank) != TokenType::NEWLINE,
        !s.failed(),
    ensures
        placed(text, at, s).expect(closer).emit_line("}"@).line_end() == placed(
            text,
            at + 2 + blank,
            s.emit_line("}"@),
        ),
        kind_of(text, at) == closer,
        item(text, at) is Token,
{
    let end = seq![mark(closer)];
    lemma_reads_concat(text, at, end, breaks(1 + blank));
    lemma_reads_at(text, at, end, 0);
    lemma_reads_at(text, at + 1, breaks(1 + blank), 0);
    lemma_passes(text, total, at, s);
    assert(placed(text, at + 1, s).emit_line("}"@) == placed(text, at + 1, s.emit_line("}"@)));
    lemma_line_end_recognized(text, total, at + 1, s.emit_line("}"@), blank);
}

/// A block statement and the line breaks after it.
proof fn lemma_block_statement(
    text: Seq<char>,
    total: nat,
    at: nat,
    s: ParserState,
    keyword: TokenType,
    opening: Seq<char>,
    condition: Comparison,
    separator: TokenType,
    gap: nat,
    body: Seq<Line>,
    closer: TokenType,
    blank: nat,
) -> (width: nat)
    requires
        is_block_form(keyword, opening, separator, closer),
        stands(
            text,
            total,
            at,
            block_tokens(keyword, condition, separator, gap, lines_tokens(body), closer) + breaks(
                1 + blank,
            ),
        ),
        kind_of(
            text,
            at + block_tokens(keyword, condition, separator, gap, lines_tokens(body), closer).len()
                + 1 + blank,
        ) != TokenType::NEWLINE,
        condition.well_formed(),
        condition.admissible(s),
        lines_well_formed(body),
        lines_admissible(body, block_entered(condition, opening, s)),
        !s.failed(),
    ensures
        width == block_tokens(keyword, condition, separator, gap, lines_tokens(body), closer).len()
            + 1 + blank,
        placed(text, at, s).statement() == placed(
            text,
            at + width,
            lines_apply(body, block_entered(condition, opening, s)).emit_line("}"@),
        ),
        !lines_apply(body, block_entered(condition, opening, s)).failed(),
    decreases body, 1nat,
{
    let head = seq![mark(keyword)] + condition.tokens() + seq![mark(separator)] + breaks(1 + gap);
    let inner = lines_tokens(body);
    let end = seq![mark(closer)];
    let tail = breaks(1 + blank);
    let all = block_tokens(keyword, condition, separator, gap, inner, closer);
    assert(all + tail =~= head + (inner + (end + tail)));
    lemma_reads_concat(text, at, head, inner + (end + tail));
    let inside = (at + head.len()) as nat;
    lemma_reads_concat(text, inside, inner, end + tail);
    let closing = (inside + inner.len()) as nat;
    lemma_reads_at(text, closing, end + tail, 0);
    if body.len() > 0 {
        lemma_statement_begins(body[0].statement);
        lemma_reads_at(text, inside, inner, 0);
    }
    let here = placed(text, at, s);
    lemma_block_head_recognized(text, total, at, s, keyword, opening, condition, separator, gap);
    let entered = block_entered(condition, opening, s);
    let begun = placed(text, inside, entered);
    assert(here.advance().block_head(opening, separator) == begun);
    lemma_advance(here);
    lemma_block_head(here.advance(), opening, separator);
    assert(begun.progressed(here));
    lemma_lines_recognized(text, total, inside, entered, body);
    let done = lines_apply(body, entered);
    lemma_block_end_recognized(text, total, closing, done, closer, blank);
    assert(here.statement() == begun.block().expect(closer).emit_line("}"@).line_end());
    (all.len() + 1 + blank) as nat
}

/// What can follow a run of statements: a token that begins no statement and is no line
/// break.
pub open spec fn ends_statements(kind: TokenType) -> bool {
    !begins_statement(kind) && kind != TokenType::NEWLINE
}

/// Where a run of statements stands, its first statement stands with its line breaks, and
/// the rest of the run after them.
proof fn lemma_lines_split(
    text: Seq<char>,
    total: nat,
    at: nat,
    lines: Seq<Line>,
) -> (after: nat)
    requires
        lines.len() > 0,
        stands(text, total, at, lines_tokens(lines)),
        ends_statements(kind_of(text, at + lines_tokens(lines).len())),
    ensures
        after == at + lines[0].statement.tokens().len() + 1 + lines[0].blank,
        after + lines_tokens(lines.drop_first()).len() == at + lines_tokens(lines).len(),
        stands(text, total, at, lines[0].statement.tokens() + breaks(1 + lines[0].blank)),
        kind_of(text, after) != TokenType::NEWLINE,
        stands(text, total, after, lines_tokens(lines.drop_first())),
        item(text, at) is Token,
        kind_of(text, at) == keyword(lines[0].statement),
{
    let first = lines[0].statement;
    let blank = lines[0].blank;
    let rest = lines.drop_first();
    let line = first.tokens() + breaks(1 + blank);
    lemma_reads_concat(text, at, line, lines_tokens(rest));
    let after = (at + line.len()) as nat;
    if rest.len() > 0 {
        lemma_statement_begins(rest[0].statement);
        lemma_reads_at(text, after, lines_tokens(rest), 0);
    }
    lemma_statement_begins(first);
    lemma_reads_concat(text, at, first.tokens(), breaks(1 + blank));
    lemma_reads_at(text, at, first.tokens(), 0);
    after
}

/// A run of statements, up to a token that begins none.
pub proof fn lemma_lines_recognized(
    text: Seq<char>,
    total: nat,
    at: nat,
    s: ParserState,
    lines: Seq<Line>,
)
    requires
        stands(text, total, at, lines_tokens(lines)),
        ends_statements(kind_of(text, at + lines_tokens(lines).len())),
        lines_well_formed(lines),
        lines_admissible(lines, s),
        !s.failed(),
    ensures
        placed(text, at, s).block() == placed(
            text,
            at + lines_tokens(lines).len(),
            lines_apply(lines, s),
        ),
        !lines_apply(lines, s).failed(),
    decreases lines, 0nat,
{
    let here = placed(text, at, s);
    lemma_cursor_after(text, at + 2);
    if lines.len() == 0 {
        assert(here.block() == here);
    } else {
        let first = lines[0].statement;
        let rest = lines.drop_first();
        let after = lemma_lines_split(text, total, at, lines);
        lemma_statement_recognized(text, total, at, s, first, lines[0].blank);
        let next = placed(text, after, first.apply(s));
        lemma_statement(here);
        assert(next.progressed(here));
        lemma_lines_recognized(text, total, after, first.apply(s), rest);
        assert(here.need_token() == here);
        assert(begins_statement(here.kind()));
        assert(here.block() == next.block());
    }
}

/// A statement and the line breaks after it.
pub proof fn lemma_statement_recognized(
    text: Seq<char>,
    total: nat,
    at: nat,
    s: ParserState,
    statement: Statement,
    blank: nat,
)
    requires
        stands(text, total, at, statement.tokens() + breaks(1 + blank)),
        kind_of(text, at + statement.tokens().len() + 1 + blank) != TokenType::NEWLINE,
        statement.well_formed(),
        statement.admissible(s),
        !s.failed(),
    ensures
        placed(text, at, s).statement() == placed(
            text,
            at + statement.tokens().len() + 1 + blank,
            statement.apply(s),
        ),
        !statement.apply(s).failed(),
    decreases statement, 0nat,
{
    match statement {
        Statement::PrintText { literal } => {
            lemma_print_text(text, total, at, s, literal, blank);
        },
        Statement::PrintValue { value } => {
            lemma_print_value(text, total, at, s, value, blank);
        },
        Statement::If { condition, blank: gap, body } => {
            lemma_block_statement(
                text,
                total,
                at,
                s,
                TokenType::IF,
                "if("@,
                condition,
                TokenType::THEN,
                gap,
                body,
                TokenType::ENDIF,
                blank,
            );
        },
        Statement::While { condition, blank: gap, body } => {
            lemma_block_statement(
                text,
                total,
                at,
                s,
                TokenType::WHILE,
                "while("@,
                condition,
                TokenType::REPEAT,
                gap,
                body,
                TokenType::ENDWHILE,
                blank,
            );
        },
        Statement::Label { name } => {
            lemma_label(text, total, at, s, name, blank);
        },
        Statement::Goto { name } => {
            lemma_goto(text, total, at, s, name, blank);
        },
        Statement::Let { name, value } => {
            lemma_let(text, total, at, s, name, value, blank);
        },
        Statement::Input { name } => {
            lemma_input(text, total, at, s, name, blank);
        },
    }
}

/// A whole program: where the calls for a token find the tokens of a well-formed program
/// that uses its names as it may, and the call after the end-of-input token does not fail,
/// the parse succeeds, with the window on the end-of-input token and the names and the
/// output as the structure of the program gives them.
pub proof fn lemma_program_recognized(text: Seq<char>, p: Program)
    requires
        reads(text, 0, p.tokens()),
        !(item(text, p.tokens().len()) is Fatal),
        p.well_formed(),
        p.admissible(ParserState::fresh(text, 0, Seq::empty(), Seq::empty(), Seq::empty())),
    ensures
        ParserState::start(text).program() == placed(
            text,
            (p.tokens().len() - 1) as nat,
            p.apply(ParserState::fresh(text, 0, Seq::empty(), Seq::empty(), Seq::empty())),
        ),
        !ParserState::start(text).program().failed(),
{
    let fresh = ParserState::fresh(text, 0, Seq::empty(), Seq::empty(), Seq::empty());
    let total = p.tokens().len();
    let lead = breaks(p.blank);
    let inner = lines_tokens(p.lines);
    let end = seq![mark(TokenType::EOF)];
    lemma_reads_legible(text, p.tokens());
    lemma_reads_concat(text, 0, lead + inner, end);
    lemma_reads_concat(text, 0, lead, inner);
    let last = (p.blank + inner.len()) as nat;
    lemma_reads_at(text, last, end, 0);
    if p.lines.len() > 0 {
        lemma_statement_begins(p.lines[0].statement);
        lemma_reads_at(text, p.blank, inner, 0);
    }
    lemma_legible_at(text, total + 1, 0);
    lemma_legible_at(text, total + 1, 1);
    assert(legible(text, 2)) by {
        reveal(legible);
    }
    lemma_start_is_placed(text);
    let opened = Program::opened(fresh);
    assert(Program::opened(placed(text, 0, fresh)) == placed(text, 0, opened));
    lemma_breaks(text, total, 0, opened, p.blank);
    lemma_lines_recognized(text, total, p.blank, opened, p.lines);
    let done = lines_apply(p.lines, opened);
    let closed = done.emit_line("return 0;"@).emit_line("}"@);
    assert(placed(text, last, done).emit_line("return 0;"@).emit_line("}"@) == placed(
        text,
        last,
        closed,
    ));
    assert(ParserState::start(text).program_text() == placed(text, last, closed));
}

} // verus!
