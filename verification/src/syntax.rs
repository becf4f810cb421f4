//! The structure of a program, the tokens it is written with, and its translation.
//!
//! A [`Program`] is what the grammar describes, as a tree. It says which tokens make it up
//! and what text it adds to the output. [`crate::recognition`] shows that the parser, given
//! those tokens, produces that text.
use vstd::prelude::*;
use crate::grammar::{
    assignment_head, first_unresolved, goto_line, input_guard, print_text_call,
    print_value_open, ParserState,
};
use crate::counting::braceless;
use crate::stream::Piece;
use crate::token::{is_relational_kind, TokenType};

verus! {

/// How an operator is written.
pub open spec fn symbol(kind: TokenType) -> Seq<char> {
    match kind {
        TokenType::EQ => "="@,
        TokenType::PLUS => "+"@,
        TokenType::MINUS => "-"@,
        TokenType::ASTERISK => "*"@,
        TokenType::SLASH => "/"@,
        TokenType::EQEQ => "=="@,
        TokenType::NOTEQ => "!="@,
        TokenType::LT => "<"@,
        TokenType::LTEQ => "<="@,
        TokenType::GT => ">"@,
        TokenType::GTEQ => ">="@,
        _ => Seq::empty(),
    }
}

/// The token of a keyword, an operator, a line break or the end of the input.
pub open spec fn mark(kind: TokenType) -> Piece {
    Piece { kind, text: symbol(kind) }
}

/// `count` line breaks.
pub open spec fn breaks(count: nat) -> Seq<Piece> {
    Seq::new(count, |i: int| mark(TokenType::NEWLINE))
}

/// The signs that may stand before a number or a variable.
pub open spec fn is_sign(kind: TokenType) -> bool {
    kind == TokenType::PLUS || kind == TokenType::MINUS
}

/// The operators that join the operands of an expression.
pub open spec fn is_operator(kind: TokenType) -> bool {
    kind == TokenType::PLUS || kind == TokenType::MINUS || kind == TokenType::ASTERISK || kind
        == TokenType::SLASH
}

/// A number or a variable, with or without a sign: `unary` in the grammar.
pub struct Operand {
    pub sign: Option<TokenType>,
    /// `NUMBER` or `IDENT`.
    pub kind: TokenType,
    pub text: Seq<char>,
}

impl Operand {
    /// The sign, if there is one, is a sign, and the operand is a number or a variable.
    pub open spec fn well_formed(self) -> bool {
        &&& self.sign matches Some(sign) ==> is_sign(sign)
        &&& self.kind == TokenType::NUMBER || self.kind == TokenType::IDENT
    }

    /// The tokens that the operand is written with.
    pub open spec fn tokens(self) -> Seq<Piece> {
        match self.sign {
            Some(sign) => seq![mark(sign), Piece { kind: self.kind, text: self.text }],
            None => seq![Piece { kind: self.kind, text: self.text }],
        }
    }

    /// A variable must have been declared.
    pub open spec fn admissible(self, s: ParserState) -> bool {
        self.kind == TokenType::IDENT ==> s.variables.contains(self.text)
    }

    /// The number or the name holds no brace.
    pub open spec fn plain(self) -> bool {
        braceless(self.text)
    }

    /// What the operand adds to the output: its sign and its text.
    pub open spec fn apply(self, s: ParserState) -> ParserState {
        match self.sign {
            Some(sign) => s.emit(symbol(sign)).emit(self.text),
            None => s.emit(self.text),
        }
    }
}

/// Operands joined by `+`, `-`, `*` and `/`. The output keeps them in the order and with
/// the operators of the source, where they mean the same.
pub struct Expression {
    pub first: Operand,
    pub rest: Seq<(TokenType, Operand)>,
}

/// The tokens of operators and operands in turn.
pub open spec fn operations_tokens(rest: Seq<(TokenType, Operand)>) -> Seq<Piece>
    decreases rest.len(),
{
    if rest.len() == 0 {
        Seq::empty()
    } else {
        seq![mark(rest[0].0)] + rest[0].1.tokens() + operations_tokens(rest.drop_first())
    }
}

/// What operators and operands in turn add to the output.
pub open spec fn operations_apply(rest: Seq<(TokenType, Operand)>, s: ParserState) -> ParserState
    decreases rest.len(),
{
    if rest.len() == 0 {
        s
    } else {
        operations_apply(rest.drop_first(), rest[0].1.apply(s.emit(symbol(rest[0].0))))
    }
}

impl Expression {
    /// Every operand is well formed, and every operator between two of them is one of the
    /// four.
    pub open spec fn well_formed(self) -> bool {
        &&& self.first.well_formed()
        &&& forall|i: int|
            0 <= i < self.rest.len() ==> is_operator((#[trigger] self.rest[i]).0)
                && self.rest[i].1.well_formed()
    }

    /// The tokens that the expression is written with.
    pub open spec fn tokens(self) -> Seq<Piece> {
        self.first.tokens() + operations_tokens(self.rest)
    }

    /// Every variable of the expression has been declared.
    pub open spec fn admissible(self, s: ParserState) -> bool {
        &&& self.first.admissible(s)
        &&& forall|i: int| 0 <= i < self.rest.len() ==> (#[trigger] self.rest[i]).1.admissible(s)
    }

    /// What the expression adds to the output: its tokens as they are written.
    pub open spec fn apply(self, s: ParserState) -> ParserState {
        operations_apply(self.rest, self.first.apply(s))
    }

    /// No number and no name of the expression holds a brace.
    pub open spec fn plain(self) -> bool {
        &&& self.first.plain()
        &&& forall|i: int| 0 <= i < self.rest.len() ==> (#[trigger] self.rest[i]).1.plain()
    }
}

/// Two or more expressions joined by relational operators.
pub struct Comparison {
    pub first: Expression,
    pub rest: Seq<(TokenType, Expression)>,
}

/// The tokens of relational operators and expressions in turn.
pub open spec fn relations_tokens(rest: Seq<(TokenType, Expression)>) -> Seq<Piece>
    decreases rest.len(),
{
    if rest.len() == 0 {
        Seq::empty()
    } else {
        seq![mark(rest[0].0)] + rest[0].1.tokens() + relations_tokens(rest.drop_first())
    }
}

/// What relational operators and expressions in turn add to the output.
pub open spec fn relations_apply(rest: Seq<(TokenType, Expression)>, s: ParserState) -> ParserState
    decreases rest.len(),
{
    if rest.len() == 0 {
        s
    } else {
        relations_apply(rest.drop_first(), rest[0].1.apply(s.emit(symbol(rest[0].0))))
    }
}

impl Comparison {
    /// There are at least two expressions, all well formed, with a relational operator
    /// between each two.
    pub open spec fn well_formed(self) -> bool {
        &&& self.first.well_formed()
        &&& self.rest.len() >= 1
        &&& forall|i: int|
            0 <= i < self.rest.len() ==> is_relational_kind((#[trigger] self.rest[i]).0)
                && self.rest[i].1.well_formed()
    }

    /// The tokens that the comparison is written with.
    pub open spec fn tokens(self) -> Seq<Piece> {
        self.first.tokens() + relations_tokens(self.rest)
    }

    /// Every variable of the comparison has been declared.
    pub open spec fn admissible(self, s: ParserState) -> bool {
        &&& self.first.admissible(s)
        &&& forall|i: int| 0 <= i < self.rest.len() ==> (#[trigger] self.rest[i]).1.admissible(s)
    }

    /// What the comparison adds to the output: its tokens as they are written.
    pub open spec fn apply(self, s: ParserState) -> ParserState {
        relations_apply(self.rest, self.first.apply(s))
    }

    /// No number and no name of the comparison holds a brace.
    pub open spec fn plain(self) -> bool {
        &&& self.first.plain()
        &&& forall|i: int| 0 <= i < self.rest.len() ==> (#[trigger] self.rest[i]).1.plain()
    }
}

/// A statement without the line breaks that end it.
pub enum Statement {
    PrintText { literal: Seq<char> },
    PrintValue { value: Expression },
    /// `blank` counts the line breaks after `THEN` beyond the first.
    If { condition: Comparison, blank: nat, body: Seq<Line> },
    /// `blank` counts the line breaks after `REPEAT` beyond the first.
    While { condition: Comparison, blank: nat, body: Seq<Line> },
    Label { name: Seq<char> },
    Goto { name: Seq<char> },
    Let { name: Seq<char>, value: Expression },
    Input { name: Seq<char> },
}

/// A statement and the line breaks that end it: one, and `blank` more.
pub struct Line {
    pub statement: Statement,
    pub blank: nat,
}

/// A whole program: `blank` line breaks, then its statements.
pub struct Program {
    pub blank: nat,
    pub lines: Seq<Line>,
}

/// The token of a name.
pub open spec fn name_piece(name: Seq<char>) -> Piece {
    Piece { kind: TokenType::IDENT, text: name }
}

impl Statement {
    /// The expressions, comparisons and statements in the statement are well formed.
    pub open spec fn well_formed(self) -> bool
        decreases self,
    {
        match self {
            Statement::PrintValue { value } => value.well_formed(),
            Statement::If { condition, blank, body } => condition.well_formed()
                && lines_well_formed(body),
            Statement::While { condition, blank, body } => condition.well_formed()
                && lines_well_formed(body),
            Statement::Let { name, value } => value.well_formed(),
            _ => true,
        }
    }

    /// The tokens that the statement is written with.
    pub open spec fn tokens(self) -> Seq<Piece>
        decreases self,
    {
        match self {
            Statement::PrintText { literal } => seq![
                mark(TokenType::PRINT),
                Piece { kind: TokenType::STRING, text: literal },
            ],
            Statement::PrintValue { value } => seq![mark(TokenType::PRINT)] + value.tokens(),
            Statement::If { condition, blank, body } => block_tokens(
                TokenType::IF,
                condition,
                TokenType::THEN,
                blank,
                lines_tokens(body),
                TokenType::ENDIF,
            ),
            Statement::While { condition, blank, body } => block_tokens(
                TokenType::WHILE,
                condition,
                TokenType::REPEAT,
                blank,
                lines_tokens(body),
                TokenType::ENDWHILE,
            ),
            Statement::Label { name } => seq![mark(TokenType::LABEL), name_piece(name)],
            Statement::Goto { name } => seq![mark(TokenType::GOTO), name_piece(name)],
            Statement::Let { name, value } => seq![
                mark(TokenType::LET),
                name_piece(name),
                mark(TokenType::EQ),
            ] + value.tokens(),
            Statement::Input { name } => seq![mark(TokenType::INPUT), name_piece(name)],
        }
    }

    /// Whether the statement uses names as the state allows: it reads declared variables
    /// only and declares no label a second time. `LET` declares its variable before its
    /// expression is read.
    pub open spec fn admissible(self, s: ParserState) -> bool
        decreases self,
    {
        match self {
            Statement::PrintText { literal } => true,
            Statement::PrintValue { value } => value.admissible(s),
            Statement::If { condition, blank, body } => condition.admissible(s)
                && lines_admissible(body, block_entered(condition, "if("@, s)),
            Statement::While { condition, blank, body } => condition.admissible(s)
                && lines_admissible(body, block_entered(condition, "while("@, s)),
            Statement::Label { name } => !s.labels.contains(name),
            Statement::Goto { name } => true,
            Statement::Let { name, value } => value.admissible(s.declare(name)),
            Statement::Input { name } => true,
        }
    }

    /// No number, name or string literal of the statement holds a brace.
    pub open spec fn plain(self) -> bool
        decreases self,
    {
        match self {
            Statement::PrintText { literal } => braceless(literal),
            Statement::PrintValue { value } => value.plain(),
            Statement::If { condition, blank, body } => condition.plain() && lines_plain(body),
            Statement::While { condition, blank, body } => condition.plain() && lines_plain(body),
            Statement::Label { name } => braceless(name),
            Statement::Goto { name } => braceless(name),
            Statement::Let { name, value } => braceless(name) && value.plain(),
            Statement::Input { name } => braceless(name),
        }
    }

    /// The number of `IF` and `WHILE` statements in the statement, itself included.
    pub open spec fn blocks(self) -> nat
        decreases self,
    {
        match self {
            Statement::If { condition, blank, body } => 1 + lines_blocks(body),
            Statement::While { condition, blank, body } => 1 + lines_blocks(body),
            _ => 0,
        }
    }

    /// The number of `INPUT` statements in the statement, itself included.
    pub open spec fn inputs(self) -> nat
        decreases self,
    {
        match self {
            Statement::If { condition, blank, body } => lines_inputs(body),
            Statement::While { condition, blank, body } => lines_inputs(body),
            Statement::Input { name } => 1,
            _ => 0,
        }
    }

    /// The variables that the statement assigns or reads in, in the order of the source.
    pub open spec fn targets(self) -> Seq<Seq<char>>
        decreases self,
    {
        match self {
            Statement::If { condition, blank, body } => lines_targets(body),
            Statement::While { condition, blank, body } => lines_targets(body),
            Statement::Let { name, value } => seq![name],
            Statement::Input { name } => seq![name],
            _ => Seq::empty(),
        }
    }

    /// What the statement adds to the names and to the output.
    pub open spec fn apply(self, s: ParserState) -> ParserState
        decreases self,
    {
        match self {
            Statement::PrintText { literal } => s.emit_line(print_text_call(literal)),
            Statement::PrintValue { value } => value.apply(s.emit(print_value_open())).emit_line(
                "));"@,
            ),
            Statement::If { condition, blank, body } => lines_apply(
                body,
                block_entered(condition, "if("@, s),
            ).emit_line("}"@),
            Statement::While { condition, blank, body } => lines_apply(
                body,
                block_entered(condition, "while("@, s),
            ).emit_line("}"@),
            Statement::Label { name } => s.label(name).emit(name).emit_line(":"@),
            Statement::Goto { name } => s.refer(name).emit_line(goto_line(name)),
            Statement::Let { name, value } => value.apply(
                s.declare(name).emit(assignment_head(name)),
            ).emit_line(";"@),
            Statement::Input { name } => s.declare(name).emit_line(input_guard(name)).emit(
                "scanf(\"%"@,
            ).emit_line("*s\");"@).emit_line("}"@),
        }
    }
}

/// The tokens of a block statement: its keyword, its condition, the keyword and the line
/// breaks that end its head, the tokens of its statements, and its closing keyword.
pub open spec fn block_tokens(
    keyword: TokenType,
    condition: Comparison,
    separator: TokenType,
    blank: nat,
    inner: Seq<Piece>,
    closer: TokenType,
) -> Seq<Piece> {
    seq![mark(keyword)] + condition.tokens() + seq![mark(separator)] + breaks(1 + blank) + inner
        + seq![mark(closer)]
}

/// The state when the head of a block statement has been translated.
pub open spec fn block_entered(condition: Comparison, opening: Seq<char>, s: ParserState) -> ParserState {
    condition.apply(s.emit(opening)).emit_line("){"@)
}

/// Every statement of the run is well formed.
pub open spec fn lines_well_formed(lines: Seq<Line>) -> bool
    decreases lines,
{
    lines.len() > 0 ==> lines[0].statement.well_formed() && lines_well_formed(lines.drop_first())
}

/// The tokens of a run of statements, each with the line breaks that end it.
pub open spec fn lines_tokens(lines: Seq<Line>) -> Seq<Piece>
    decreases lines,
{
    if lines.len() == 0 {
        Seq::empty()
    } else {
        lines[0].statement.tokens() + breaks(1 + lines[0].blank) + lines_tokens(lines.drop_first())
    }
}

/// No number, name or string literal in the run holds a brace.
pub open spec fn lines_plain(lines: Seq<Line>) -> bool
    decreases lines,
{
    lines.len() > 0 ==> lines[0].statement.plain() && lines_plain(lines.drop_first())
}

/// The number of `IF` and `WHILE` statements in the run.
pub open spec fn lines_blocks(lines: Seq<Line>) -> nat
    decreases lines,
{
    if lines.len() == 0 {
        0
    } else {
        lines[0].statement.blocks() + lines_blocks(lines.drop_first())
    }
}

/// The number of `INPUT` statements in the run.
pub open spec fn lines_inputs(lines: Seq<Line>) -> nat
    decreases lines,
{
    if lines.len() == 0 {
        0
    } else {
        lines[0].statement.inputs() + lines_inputs(lines.drop_first())
    }
}

/// The variables that the statements of the run assign or read in, in the order of the source.
pub open spec fn lines_targets(lines: Seq<Line>) -> Seq<Seq<char>>
    decreases lines,
{
    if lines.len() == 0 {
        Seq::empty()
    } else {
        lines[0].statement.targets() + lines_targets(lines.drop_first())
    }
}

/// Each statement of the run is admissible in the state that the statements before it
/// leave.
pub open spec fn lines_admissible(lines: Seq<Line>, s: ParserState) -> bool
    decreases lines,
{
    lines.len() > 0 ==> lines[0].statement.admissible(s) && lines_admissible(
        lines.drop_first(),
        lines[0].statement.apply(s),
    )
}

/// What the statements of the run add to the names and to the output, one after the
/// other.
pub open spec fn lines_apply(lines: Seq<Line>, s: ParserState) -> ParserState
    decreases lines,
{
    if lines.len() == 0 {
        s
    } else {
        lines_apply(lines.drop_first(), lines[0].statement.apply(s))
    }
}

impl Program {
    /// Every statement of the program is well formed.
    pub open spec fn well_formed(self) -> bool {
        lines_well_formed(self.lines)
    }

    /// The tokens that the program is written with, the end-of-input token included.
    pub open spec fn tokens(self) -> Seq<Piece> {
        breaks(self.blank) + lines_tokens(self.lines) + seq![mark(TokenType::EOF)]
    }

    /// The state when the opening of the entry function has been emitted.
    pub open spec fn opened(s: ParserState) -> ParserState {
        s.header_line("# include <stdio.h>"@).header_line("int main(void){"@)
    }

    /// The state when the whole program has been translated.
    pub open spec fn apply(self, s: ParserState) -> ParserState {
        lines_apply(self.lines, Self::opened(s)).emit_line("return 0;"@).emit_line("}"@)
    }

    /// No number, name or string literal of the program holds a brace.
    pub open spec fn plain(self) -> bool {
        lines_plain(self.lines)
    }

    /// The number of `IF` and `WHILE` statements in the program.
    pub open spec fn blocks(self) -> nat {
        lines_blocks(self.lines)
    }

    /// The number of `INPUT` statements in the program.
    pub open spec fn inputs(self) -> nat {
        lines_inputs(self.lines)
    }

    /// The variables that the program assigns or reads in, in the order of the source and
    /// as often as it does.
    pub open spec fn targets(self) -> Seq<Seq<char>> {
        lines_targets(self.lines)
    }

    /// The names and the output of the whole program.
    pub open spec fn outcome(self) -> ParserState {
        self.apply(ParserState::blank())
    }

    /// The text that the program is translated to.
    pub open spec fn translation(self) -> Seq<char> {
        self.outcome().artifact()
    }

    /// The program is well formed and uses its names as the grammar allows.
    pub open spec fn valid(self) -> bool {
        self.well_formed() && self.admissible(ParserState::blank())
    }

    /// Whether the program uses names as the grammar allows: every variable is declared
    /// before it is read, no label is declared twice, and every label that a `GOTO` names
    /// is declared somewhere.
    pub open spec fn admissible(self, s: ParserState) -> bool {
        &&& lines_admissible(self.lines, Self::opened(s))
        &&& first_unresolved(self.apply(s).gotos, self.apply(s).labels) is None
    }
}

} // verus!
