//! Where a parse fails, and with which failure.
use vstd::prelude::*;
use crate::error::{Failure, SemanticFailure, SyntaxError};
use crate::grammar::{
    assignment_head, first_unresolved, print_value_open, spelling, ParserState,
};
use crate::lex::scan;
use crate::progress::lemma_failure_stays;
use crate::recognition::{lemma_comparison_frame, lemma_operations_frame};
use crate::syntax::{block_entered, lines_apply, Line, Statement};
use crate::token::{begins_statement, is_relational_kind, TokenType};

verus! {

/// **A variable that is read must have been declared.** Where an expression begins with a
/// name that no `LET` and no `INPUT` has declared so far, the parse fails with the
/// failure that names it, whatever follows. No token is consumed, nothing is emitted, and
/// the names are as they were.
pub proof fn law_undeclared_variable(s: ParserState)
    requires
        !s.failed(),
        s.current matches Some(token) && token.kind == TokenType::IDENT && !s.variables.contains(
            spelling(token),
        ),
    ensures
        s.primary() == s.fail(
            Failure::Semantic(SemanticFailure::UndeclaredVariable { name: s.word() }),
        ),
        s.expression() == s.primary(),
        s.comparison() == s.primary(),
{
    reveal(ParserState::expression);
    reveal(ParserState::comparison);
    assert(s.primary().failed());
    lemma_failure_stays(s.primary());
}

/// **A label is declared once.** Where a `LABEL` names a label that is declared already,
/// the statement fails with the failure that names it. The window is on the name, nothing
/// is emitted, and the names are as they were.
pub proof fn law_duplicate_label(s: ParserState)
    requires
        !s.failed(),
        s.current matches Some(token) && token.kind == TokenType::LABEL,
        s.peek matches Some(token) && token.kind == TokenType::IDENT && s.labels.contains(
            spelling(token),
        ),
        !(scan(s.text, s.cursor) is Fatal),
    ensures
        s.statement() == s.advance().fail(
            Failure::Semantic(SemanticFailure::DuplicateLabel { name: spelling(s.peek->0) }),
        ),
        s.statement().labels == s.labels,
        s.statement().body == s.body,
{
    reveal(ParserState::simple_statement);
    lemma_failure_stays(s.advance().label_rest());
}

/// **A statement begins with its keyword.** Where the current token begins no statement,
/// the statement fails and names the token. No token is consumed, nothing is emitted, and
/// the names are as they were.
pub proof fn law_statement_needs_keyword(s: ParserState)
    requires
        !s.failed(),
        s.current matches Some(token) && !begins_statement(token.kind),
    ensures
        s.statement() == s.fail(
            Failure::Syntax(SyntaxError::ExpectedStatement { found: s.kind() }),
        ),
{
    reveal(ParserState::simple_statement);
    let failed = s.simple_statement();
    lemma_failure_stays(failed);
}

/// **A required token must be there.** Where the current token is of another kind than
/// the one required, the parse fails and names both kinds. No token is consumed, nothing
/// is emitted, and the names are as they were. Where it is of the kind required, the
/// window moves on by one token and nothing else changes.
pub proof fn law_required_token(s: ParserState, kind: TokenType)
    requires
        !s.failed(),
        s.current is Some,
    ensures
        s.kind() != kind ==> s.expect(kind) == s.fail(
            Failure::Syntax(SyntaxError::Expected { expected: kind, found: s.kind() }),
        ),
        s.kind() == kind ==> s.expect(kind) == s.advance(),
        s.kind() == kind && !s.advance().failed() ==> s.advance() == (ParserState {
            current: s.peek,
            peek: s.advance().peek,
            cursor: s.advance().cursor,
            ..s
        }),
{
}

/// No statement removes a label: what was declared before it is declared after it.
pub proof fn lemma_labels_stay(statement: Statement, s: ParserState, name: Seq<char>)
    requires
        s.labels.contains(name),
    ensures
        statement.apply(s).labels.contains(name),
    decreases statement, 0nat,
{
    match statement {
        Statement::PrintValue { value } => {
            lemma_operations_frame(
                value.rest,
                value.first.apply(s.emit(print_value_open())),
            );
        },
        Statement::If { condition, blank, body } => {
            lemma_comparison_frame(condition, s.emit("if("@));
            lemma_lines_keep_labels(body, block_entered(condition, "if("@, s), name);
        },
        Statement::While { condition, blank, body } => {
            lemma_comparison_frame(condition, s.emit("while("@));
            lemma_lines_keep_labels(
                body,
                block_entered(condition, "while("@, s),
                name,
            );
        },
        Statement::Label { name: declared } => {
            let i = choose|i: int| 0 <= i < s.labels.len() && s.labels[i] == name;
            assert(s.labels.push(declared)[i] == name);
        },
        Statement::Let { name: target, value } => {
            lemma_operations_frame(
                value.rest,
                value.first.apply(
                    s.declare(target).emit(assignment_head(target)),
                ),
            );
        },
        _ => {},
    }
}

/// No run of statements removes a label.
pub proof fn lemma_lines_keep_labels(lines: Seq<Line>, s: ParserState, name: Seq<char>)
    requires
        s.labels.contains(name),
    ensures
        lines_apply(lines, s).labels.contains(name),
    decreases lines, 0nat,
{
    if lines.len() > 0 {
        lemma_labels_stay(lines[0].statement, s, name);
        lemma_lines_keep_labels(lines.drop_first(), lines[0].statement.apply(s), name);
    }
}

/// **Every jump needs its label, wherever it is declared.** When all statements have been
/// read without a failure, the parse fails if and only if a `GOTO` has named a label that
/// no `LABEL` declares, before or after it; the failure names the first such label.
pub proof fn law_unresolved_goto(s: ParserState)
    requires
        !s.program_text().failed(),
    ensures
        s.program().failed() <==> first_unresolved(
            s.program_text().gotos,
            s.program_text().labels,
        ) is Some,
        first_unresolved(s.program_text().gotos, s.program_text().labels) matches Some(name)
            ==> s.program().failure == Some(
            Failure::Semantic(SemanticFailure::UnresolvedGoto { name }),
        ),
{
}

/// The first unresolved label is one that was named and not declared, and there is none
/// exactly if every label that was named is declared.
pub proof fn lemma_first_unresolved(gotos: Seq<Seq<char>>, labels: Seq<Seq<char>>)
    ensures
        first_unresolved(gotos, labels) matches Some(name) ==> gotos.contains(name)
            && !labels.contains(name),
        first_unresolved(gotos, labels) is None <==> forall|i: int|
            0 <= i < gotos.len() ==> labels.contains(#[trigger] gotos[i]),
    decreases gotos.len(),
{
    if gotos.len() > 0 {
        let rest = gotos.drop_first();
        lemma_first_unresolved(rest, labels);
        assert(gotos[0] == gotos[0]);
        if labels.contains(gotos[0]) {
            if let Some(name) = first_unresolved(rest, labels) {
                let i = choose|i: int| 0 <= i < rest.len() && rest[i] == name;
                assert(gotos[i + 1] == name);
            }
            if first_unresolved(rest, labels) is None {
                assert forall|i: int| 0 <= i < gotos.len() implies labels.contains(
                    #[trigger] gotos[i],
                ) by {
                    if i > 0 {
                        assert(rest[i - 1] == gotos[i]);
                    }
                }
            } else {
                let j = choose|j: int| 0 <= j < rest.len() && !labels.contains(rest[j]);
                assert(gotos[j + 1] == rest[j]);
            }
        }
    }
}

/// **A comparison needs a relational operator.** Where the token after the first
/// expression of a comparison is none, the parse fails there and names what it found.
/// The output holds the first expression and nothing after it.
pub proof fn law_comparison_needs_operator(s: ParserState)
    requires
        !s.expression().failed(),
        s.expression().current matches Some(token) && !is_relational_kind(token.kind),
    ensures
        s.comparison() == s.expression().fail(
            Failure::Syntax(SyntaxError::ExpectedComparison { found: s.expression().kind() }),
        ),
{
    reveal(ParserState::comparison);
}

/// **A block ends with its own keyword.** Where the statements of a block are followed by a
/// token that begins no statement and is not the keyword that closes the block, such as
/// the closing keyword of another kind of block or the end of the input, the parse fails
/// there, and the failure names the keyword that was expected and the token that was found.
pub proof fn law_block_is_closed_by_its_keyword(s: ParserState, closer: TokenType)
    requires
        !s.failed(),
        s.current matches Some(token) && token.kind != closer && !begins_statement(token.kind),
    ensures
        s.block() == s,
        s.block().expect(closer) == s.fail(
            Failure::Syntax(SyntaxError::Expected { expected: closer, found: s.kind() }),
        ),
{
}

/// **A program is statements.** Where the statements of a program are followed by a token
/// that begins no statement and is not the end of the input, the parse fails there and
/// names the token.
pub proof fn law_program_is_statements(s: ParserState)
    requires
        !s.failed(),
        s.current matches Some(token) && token.kind != TokenType::EOF && !begins_statement(
            token.kind,
        ),
    ensures
        s.block().end_of_input() == s.fail(
            Failure::Syntax(SyntaxError::ExpectedStatement { found: s.kind() }),
        ),
{
}

} // verus!
