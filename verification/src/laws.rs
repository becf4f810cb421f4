//! What holds of every well-formed program: it compiles, and its translation has the shape
//! that its structure gives.
use vstd::prelude::*;
use crate::error::CompileError;
use crate::grammar::{
    assignment_head, declaration, print_text_call, print_value_open, spelling, ParserState,
};
use crate::progress::lemma_failure_stays;
use crate::lex::{scan, Scan};
use crate::recognition::{
    lemma_comparison_frame, lemma_operations_frame, lemma_program_recognized,
};
use crate::reconstruction::lemma_program_parsed;
use crate::stream::{cursor_after, item, lemma_cursor_after, lemma_reads_at, reads, visible};
use crate::syntax::{
    block_entered, lines_admissible, lines_apply, lines_targets, operations_apply,
    relations_apply, symbol, Comparison, Expression, Line, Operand, Program, Statement,
};
use crate::token::TokenType;
use crate::{compiled, is_compilation, terminated};

verus! {

/// A program whose tokens the source text is written with: each call for a token finds
/// the next token of the program, up to the end-of-input token.
pub open spec fn is_written(source: Seq<char>, program: Program) -> bool {
    reads(terminated(source), 0, program.tokens())
}

/// The end-of-input token takes the lexer to the end of the text.
pub proof fn lemma_end_of_input_ends_the_text(text: Seq<char>, from: int)
    requires
        0 <= from,
    ensures
        scan(text, from) matches Scan::Token { token, next } ==> (token.kind == TokenType::EOF
            ==> next == text.len()),
{
    reveal(scan);
}

/// No token follows the end-of-input token of a program: the call for a token after it
/// finds nothing, and does not fail.
pub proof fn lemma_nothing_follows_the_program(text: Seq<char>, program: Program)
    requires
        reads(text, 0, program.tokens()),
    ensures
        item(text, program.tokens().len()) is Nothing,
{
    let tokens = program.tokens();
    let last = (tokens.len() - 1) as nat;
    lemma_reads_at(text, 0, tokens, last);
    lemma_cursor_after(text, last);
    lemma_end_of_input_ends_the_text(text, cursor_after(text, last));
    assert(cursor_after(text, (last + 1) as nat) == text.len());
    lemma_nothing_past_the_end(text, tokens.len());
}

/// The names and the output of `s`, with the text and the window of `other`.
pub open spec fn rebased(s: ParserState, other: ParserState) -> ParserState {
    ParserState {
        text: other.text,
        cursor: other.cursor,
        current: other.current,
        peek: other.peek,
        path: other.path,
        ..s
    }
}

proof fn lemma_operations_rebased(
    rest: Seq<(TokenType, Operand)>,
    s: ParserState,
    other: ParserState,
)
    ensures
        operations_apply(rest, rebased(s, other)) == rebased(operations_apply(rest, s), other),
    decreases rest.len(),
{
    if rest.len() > 0 {
        let next = rest[0].1.apply(s.emit(symbol(rest[0].0)));
        assert(rest[0].1.apply(rebased(s, other).emit(symbol(rest[0].0))) == rebased(next, other));
        lemma_operations_rebased(rest.drop_first(), next, other);
    }
}

proof fn lemma_expression_rebased(x: Expression, s: ParserState, other: ParserState)
    ensures
        x.apply(rebased(s, other)) == rebased(x.apply(s), other),
        x.admissible(rebased(s, other)) == x.admissible(s),
{
    assert(x.first.apply(rebased(s, other)) == rebased(x.first.apply(s), other));
    lemma_operations_rebased(x.rest, x.first.apply(s), other);
    if x.admissible(s) {
        assert forall|i: int| 0 <= i < x.rest.len() implies (#[trigger] x.rest[i]).1.admissible(
            rebased(s, other),
        ) by {
            assert(x.rest[i].1.admissible(s));
        }
    }
    if x.admissible(rebased(s, other)) {
        assert forall|i: int| 0 <= i < x.rest.len() implies (#[trigger] x.rest[i]).1.admissible(
            s,
        ) by {
            assert(x.rest[i].1.admissible(rebased(s, other)));
        }
    }
}

proof fn lemma_relations_rebased(
    rest: Seq<(TokenType, Expression)>,
    s: ParserState,
    other: ParserState,
)
    ensures
        relations_apply(rest, rebased(s, other)) == rebased(relations_apply(rest, s), other),
    decreases rest.len(),
{
    if rest.len() > 0 {
        let s1 = s.emit(symbol(rest[0].0));
        assert(rebased(s, other).emit(symbol(rest[0].0)) == rebased(s1, other));
        lemma_expression_rebased(rest[0].1, s1, other);
        lemma_relations_rebased(rest.drop_first(), rest[0].1.apply(s1), other);
    }
}

proof fn lemma_comparison_rebased(x: Comparison, s: ParserState, other: ParserState)
    ensures
        x.apply(rebased(s, other)) == rebased(x.apply(s), other),
        x.admissible(rebased(s, other)) == x.admissible(s),
{
    lemma_expression_rebased(x.first, s, other);
    lemma_relations_rebased(x.rest, x.first.apply(s), other);
    if x.admissible(s) {
        assert forall|i: int| 0 <= i < x.rest.len() implies (#[trigger] x.rest[i]).1.admissible(
            rebased(s, other),
        ) by {
            lemma_expression_rebased(x.rest[i].1, s, other);
        }
    }
    if x.admissible(rebased(s, other)) {
        assert forall|i: int| 0 <= i < x.rest.len() implies (#[trigger] x.rest[i]).1.admissible(
            s,
        ) by {
            lemma_expression_rebased(x.rest[i].1, s, other);
        }
    }
}

proof fn lemma_block_entered_rebased(
    condition: Comparison,
    opening: Seq<char>,
    s: ParserState,
    other: ParserState,
)
    ensures
        block_entered(condition, opening, rebased(s, other)) == rebased(
            block_entered(condition, opening, s),
            other,
        ),
{
    assert(rebased(s, other).emit(opening) == rebased(s.emit(opening), other));
    lemma_comparison_rebased(condition, s.emit(opening), other);
}

/// What a statement adds to the names and to the output does not depend on the text or on
/// the window, and neither does whether it is admissible.
pub(crate) proof fn lemma_statement_rebased(statement: Statement, s: ParserState, other: ParserState)
    ensures
        statement.apply(rebased(s, other)) == rebased(statement.apply(s), other),
        statement.admissible(rebased(s, other)) == statement.admissible(s),
    decreases statement, 0nat,
{
    match statement {
        Statement::PrintText { literal } => {},
        Statement::PrintValue { value } => {
            assert(rebased(s, other).emit(print_value_open()) == rebased(
                s.emit(print_value_open()),
                other,
            ));
            lemma_expression_rebased(value, s.emit(print_value_open()), other);
            lemma_expression_rebased(value, s, other);
        },
        Statement::If { condition, blank, body } => {
            lemma_comparison_rebased(condition, s, other);
            lemma_block_entered_rebased(condition, "if("@, s, other);
            lemma_lines_rebased(body, block_entered(condition, "if("@, s), other);
        },
        Statement::While { condition, blank, body } => {
            lemma_comparison_rebased(condition, s, other);
            lemma_block_entered_rebased(condition, "while("@, s, other);
            lemma_lines_rebased(body, block_entered(condition, "while("@, s), other);
        },
        Statement::Label { name } => {},
        Statement::Goto { name } => {},
        Statement::Let { name, value } => {
            let s1 = s.declare(name).emit(assignment_head(name));
            assert(rebased(s, other).declare(name).emit(assignment_head(name))
                == rebased(s1, other));
            lemma_expression_rebased(value, s1, other);
            assert(rebased(s, other).declare(name) == rebased(s.declare(name), other));
            lemma_expression_rebased(value, s.declare(name), other);
        },
        Statement::Input { name } => {},
    }
}

/// What a run of statements adds does not depend on the text or on the window either.
pub(crate) proof fn lemma_lines_rebased(lines: Seq<Line>, s: ParserState, other: ParserState)
    ensures
        lines_apply(lines, rebased(s, other)) == rebased(lines_apply(lines, s), other),
        lines_admissible(lines, rebased(s, other)) == lines_admissible(lines, s),
    decreases lines, 0nat,
{
    if lines.len() > 0 {
        lemma_statement_rebased(lines[0].statement, s, other);
        lemma_lines_rebased(lines.drop_first(), lines[0].statement.apply(s), other);
    }
}

/// **Well-formed programs compile.** Let the tokens of a source text be those of a program
/// that is well formed and valid: it reads no variable before a `LET` or an `INPUT` has
/// declared it, declares no label twice, and declares every label that a `GOTO` names.
/// Then the compilation of the text succeeds, and its result is the translation that the
/// structure of the program gives.
pub proof fn law_valid_program_compiles(source: Seq<char>, program: Program)
    requires
        program.valid(),
        is_written(source, program),
    ensures
        !compiled(source).failed(),
        compiled(source).artifact() == program.translation(),
        compiled(source).prologue == program.outcome().prologue,
        compiled(source).body == program.outcome().body,
        compiled(source).variables == program.outcome().variables,
        compiled(source).current matches Some(token) && token.kind == TokenType::EOF,
        forall|result: Result<String, CompileError>| #[trigger]
            is_compilation(source, result) ==> (result matches Ok(artifact) && artifact@
                == program.translation()),
{
    let text = terminated(source);
    let fresh = ParserState::fresh(text, 0, Seq::empty(), Seq::empty(), Seq::empty());
    assert(fresh == rebased(ParserState::blank(), fresh));
    let opened = Program::opened(ParserState::blank());
    assert(Program::opened(fresh) == rebased(opened, fresh));
    lemma_lines_rebased(program.lines, opened, fresh);
    lemma_nothing_follows_the_program(text, program);
    lemma_program_recognized(text, program);
    lemma_last_token(text, program);
}

/// The last token of a program is the end-of-input token.
proof fn lemma_last_token(text: Seq<char>, program: Program)
    requires
        reads(text, 0, program.tokens()),
    ensures
        visible(item(text, (program.tokens().len() - 1) as nat)) matches Some(token) && token.kind
            == TokenType::EOF,
{
    let tokens = program.tokens();
    let last = (tokens.len() - 1) as nat;
    lemma_reads_at(text, 0, tokens, last);
}

/// What opens every translation: the inclusion of the input and output functions, and the
/// head of the entry function.
pub open spec fn opening() -> Seq<char> {
    "# include <stdio.h>"@.push('\n') + "int main(void){"@.push('\n')
}

/// The declarations of `names`, one to a line.
pub open spec fn declarations(names: Seq<Seq<char>>) -> Seq<char>
    decreases names.len(),
{
    if names.len() == 0 {
        Seq::empty()
    } else {
        declarations(names.drop_last()) + declaration(names.last()).push('\n')
    }
}

/// `base`, and after it those of `names` that it does not hold, each once, in the order in
/// which they first occur.
pub open spec fn extended(base: Seq<Seq<char>>, names: Seq<Seq<char>>) -> Seq<Seq<char>>
    decreases names.len(),
{
    if names.len() == 0 {
        base
    } else {
        let before = extended(base, names.drop_last());
        if before.contains(names.last()) {
            before
        } else {
            before.push(names.last())
        }
    }
}

/// The distinct names among `names`, in the order in which they first occur.
pub open spec fn first_uses(names: Seq<Seq<char>>) -> Seq<Seq<char>> {
    extended(Seq::empty(), names)
}

/// Extending by two runs of names, one after the other, is extending by both at once.
pub(crate) proof fn lemma_extended_concat(
    base: Seq<Seq<char>>,
    first: Seq<Seq<char>>,
    second: Seq<Seq<char>>,
)
    ensures
        extended(base, first + second) == extended(extended(base, first), second),
    decreases second.len(),
{
    if second.len() == 0 {
        assert(first + second =~= first);
    } else {
        assert((first + second).drop_last() =~= first + second.drop_last());
        lemma_extended_concat(base, first, second.drop_last());
    }
}

/// Extending a list that holds nothing twice gives a list that holds nothing twice, and
/// that holds what the list or the names hold.
pub(crate) proof fn lemma_extended_holds(base: Seq<Seq<char>>, names: Seq<Seq<char>>)
    requires
        base.no_duplicates(),
    ensures
        extended(base, names).no_duplicates(),
        forall|name: Seq<char>|
            extended(base, names).contains(name) <==> base.contains(name) || names.contains(name),
    decreases names.len(),
{
    if names.len() > 0 {
        let fewer = names.drop_last();
        let last = names.last();
        lemma_extended_holds(base, fewer);
        let before = extended(base, fewer);
        assert forall|name: Seq<char>|
            extended(base, names).contains(name) <==> base.contains(name) || names.contains(
                name,
            ) by {
            if names.contains(name) {
                let i = choose|i: int| 0 <= i < names.len() && names[i] == name;
                if i < names.len() - 1 {
                    assert(fewer[i] == name);
                }
            }
            if fewer.contains(name) {
                let i = choose|i: int| 0 <= i < fewer.len() && fewer[i] == name;
                assert(names[i] == name);
            }
            assert(names[names.len() - 1] == last);
            if !before.contains(last) {
                let longer = before.push(last);
                assert(longer[before.len() as int] == last);
                if before.contains(name) {
                    let i = choose|i: int| 0 <= i < before.len() && before[i] == name;
                    assert(longer[i] == name);
                }
            }
        }
    }
}

/// The prologue of `s` is `lead` and the declarations of its variables.
pub open spec fn declares_its_variables(s: ParserState, lead: Seq<char>) -> bool {
    s.prologue == lead + declarations(s.variables)
}

proof fn lemma_declare(s: ParserState, lead: Seq<char>, name: Seq<char>)
    requires
        !s.failed(),
        declares_its_variables(s, lead),
    ensures
        declares_its_variables(s.declare(name), lead),
        s.declare(name).variables == extended(s.variables, seq![name]),
{
    let one = seq![name];
    assert(one.drop_last() =~= Seq::<Seq<char>>::empty());
    assert(extended(s.variables, one.drop_last()) == s.variables);
    if !s.variables.contains(name) {
        let longer = s.variables.push(name);
        assert(longer.drop_last() =~= s.variables);
        assert((lead + declarations(s.variables) + declaration(name)).push('\n') =~= lead + (
        declarations(s.variables) + declaration(name).push('\n')));
    }
}

/// A statement declares those of its variables that are new, in the order of their first
/// use, and changes the prologue by their declarations only.
pub(crate) proof fn lemma_statement_declares(statement: Statement, s: ParserState, lead: Seq<char>)
    requires
        !s.failed(),
        declares_its_variables(s, lead),
    ensures
        !statement.apply(s).failed(),
        declares_its_variables(statement.apply(s), lead),
        statement.apply(s).variables == extended(s.variables, statement.targets()),
    decreases statement, 0nat,
{
    match statement {
        Statement::PrintText { literal } => {},
        Statement::PrintValue { value } => {
            let s1 = s.emit(print_value_open());
            lemma_operations_frame(value.rest, value.first.apply(s1));
        },
        Statement::If { condition, blank, body } => {
            lemma_comparison_frame(condition, s.emit("if("@));
            lemma_lines_declare(body, block_entered(condition, "if("@, s), lead);
        },
        Statement::While { condition, blank, body } => {
            lemma_comparison_frame(condition, s.emit("while("@));
            lemma_lines_declare(body, block_entered(condition, "while("@, s), lead);
        },
        Statement::Label { name } => {},
        Statement::Goto { name } => {},
        Statement::Let { name, value } => {
            lemma_declare(s, lead, name);
            let s1 = s.declare(name).emit(assignment_head(name));
            lemma_operations_frame(value.rest, value.first.apply(s1));
        },
        Statement::Input { name } => {
            lemma_declare(s, lead, name);
        },
    }
}

/// A run of statements declares those of its variables that are new, in the order of
/// their first use.
pub(crate) proof fn lemma_lines_declare(lines: Seq<Line>, s: ParserState, lead: Seq<char>)
    requires
        !s.failed(),
        declares_its_variables(s, lead),
    ensures
        !lines_apply(lines, s).failed(),
        declares_its_variables(lines_apply(lines, s), lead),
        lines_apply(lines, s).variables == extended(s.variables, lines_targets(lines)),
    decreases lines, 0nat,
{
    if lines.len() > 0 {
        let first = lines[0].statement;
        lemma_statement_declares(first, s, lead);
        lemma_lines_declare(lines.drop_first(), first.apply(s), lead);
        lemma_extended_concat(s.variables, first.targets(), lines_targets(lines.drop_first()));
    }
}

/// **One declaration for each variable.** The prologue of a translation is the opening of
/// the entry function and then one declaration for each distinct variable that a `LET` or
/// an `INPUT` of the program names, in the order in which the program first names them.
pub proof fn law_one_declaration_per_variable(program: Program)
    ensures
        program.outcome().variables == first_uses(program.targets()),
        program.outcome().prologue == opening() + declarations(first_uses(program.targets())),
        first_uses(program.targets()).no_duplicates(),
        forall|name: Seq<char>|
            first_uses(program.targets()).contains(name) <==> program.targets().contains(name),
{
    let opened = Program::opened(ParserState::blank());
    assert(opened.variables == Seq::<Seq<char>>::empty());
    assert(opened.prologue =~= opening() + declarations(opened.variables));
    lemma_lines_declare(program.lines, opened, opening());
    lemma_extended_holds(Seq::empty(), program.targets());
}

/// **Determinism.** The result of a compilation is determined by the source text: two
/// results for one source are both the same text, or both the same failure.
pub proof fn law_compilation_is_determined(
    source: Seq<char>,
    first: Result<String, CompileError>,
    second: Result<String, CompileError>,
)
    requires
        is_compilation(source, first),
        is_compilation(source, second),
    ensures
        match (first, second) {
            (Ok(a), Ok(b)) => a@ == b@,
            (Err(a), Err(b)) => a@ == b@,
            _ => false,
        },
{
}

/// **`PRINT` of a string literal.** Whatever has been declared or emitted before it, the
/// statement adds to the body one line, the call that prints the literal and a line break,
/// and changes nothing else.
pub proof fn law_print_text_is_verbatim(literal: Seq<char>, s: ParserState)
    requires
        !s.failed(),
    ensures
        (Statement::PrintText { literal }).apply(s) == (ParserState {
            body: s.body + "printf(\""@ + literal + "\\n\");"@ + seq!['\n'],
            ..s
        }),
{
    let call = "printf(\""@ + literal + "\\n\");"@;
    assert((s.body + call).push('\n') =~= s.body + "printf(\""@ + literal + "\\n\");"@
        + seq!['\n']);
}

/// Past the end of the text the lexer finds nothing, and does not fail. So the call for a
/// token after an end-of-input token that ends the text does not fail.
pub proof fn lemma_nothing_past_the_end(text: Seq<char>, count: nat)
    requires
        cursor_after(text, count) >= text.len(),
    ensures
        item(text, count) is Nothing,
{
    reveal(scan);
}

/// **What compiles is a valid program.** Where the compilation of a source text succeeds,
/// the text is written with the tokens of a valid program, and the result is the
/// translation of that program.
pub proof fn law_compiled_is_valid_program(source: Seq<char>) -> (program: Program)
    requires
        !compiled(source).failed(),
    ensures
        program.valid(),
        is_written(source, program),
        compiled(source).artifact() == program.translation(),
{
    let text = terminated(source);
    let fresh = ParserState::fresh(text, 0, Seq::empty(), Seq::empty(), Seq::empty());
    let program = lemma_program_parsed(text);
    assert(fresh == rebased(ParserState::blank(), fresh));
    let opened = Program::opened(ParserState::blank());
    assert(Program::opened(fresh) == rebased(opened, fresh));
    lemma_lines_rebased(program.lines, opened, fresh);
    assert(program.apply(fresh) == rebased(program.outcome(), fresh));
    law_valid_program_compiles(source, program);
    program
}

/// **Compilation succeeds on valid programs and on nothing else.**
pub proof fn law_compiles_iff_valid(source: Seq<char>)
    ensures
        !compiled(source).failed() <==> exists|program: Program|
            program.valid() && #[trigger] is_written(source, program),
{
    if !compiled(source).failed() {
        let program = law_compiled_is_valid_program(source);
        assert(program.valid() && is_written(source, program));
    }
    if exists|program: Program| program.valid() && #[trigger] is_written(source, program) {
        let program = choose|program: Program|
            program.valid() && #[trigger] is_written(source, program);
        law_valid_program_compiles(source, program);
    }
}

/// **`PRINT` of a string literal, in every state.** Let the current token be `PRINT` and
/// the token after it a string literal. If the statement succeeds, it has added to the
/// body the call that prints the literal and a line break, verbatim, and has changed
/// neither the prologue nor the names, whatever they held.
pub proof fn law_print_text_statement(s: ParserState)
    requires
        !s.failed(),
        s.current matches Some(token) && token.kind == TokenType::PRINT,
        s.peek matches Some(token) && token.kind == TokenType::STRING,
        !s.statement().failed(),
    ensures
        s.statement().body == s.body + "printf(\""@ + spelling(s.peek->0) + "\\n\");"@ + seq![
            '\n',
        ],
        s.statement().prologue == s.prologue,
        s.statement().variables == s.variables,
        s.statement().labels == s.labels,
        s.statement().gotos == s.gotos,
{
    reveal(ParserState::simple_statement);
    let literal = spelling(s.peek->0);
    let a = s.advance();
    if a.failed() {
        lemma_failure_stays(a);
    }
    let printed = a.emit_line(print_text_call(literal)).advance();
    assert(a.print_rest() == printed);
    if printed.failed() {
        lemma_failure_stays(printed);
    }
    lemma_line_end_keeps(printed);
    assert((s.body + print_text_call(literal)).push('\n') =~= s.body + "printf(\""@ + literal
        + "\\n\");"@ + seq!['\n']);
}

/// Passing line breaks changes nothing but the window.
proof fn lemma_line_breaks_keep(s: ParserState)
    requires
        !s.line_breaks().failed(),
    ensures
        s.line_breaks() == (ParserState {
            current: s.line_breaks().current,
            peek: s.line_breaks().peek,
            cursor: s.line_breaks().cursor,
            ..s
        }),
    decreases s.remaining(),
{
    let t = s.need_token();
    if !(t.failed() || t.kind() != TokenType::NEWLINE) {
        if t.advance().progressed(s) {
            lemma_line_breaks_keep(t.advance());
        }
    }
}

/// The end of a line changes nothing but the window.
proof fn lemma_line_end_keeps(s: ParserState)
    requires
        !s.line_end().failed(),
    ensures
        s.line_end() == (ParserState {
            current: s.line_end().current,
            peek: s.line_end().peek,
            cursor: s.line_end().cursor,
            ..s
        }),
{
    let e = s.expect(TokenType::NEWLINE);
    if e.failed() {
        lemma_failure_stays(e);
    }
    lemma_line_breaks_keep(e);
}

} // verus!
