//! The braces of a translation: one pair for the entry function, one for each `IF` and
//! `WHILE`, and one for the fallback of each `INPUT`.
use vstd::prelude::*;
use crate::counting::{
    braceless, count, lemma_count_absent, lemma_count_concat, lemma_count_once, lemma_count_push,
    one_if,
};
use crate::laws::{
    declarations, first_uses, is_written, law_one_declaration_per_variable,
    law_valid_program_compiles, opening,
};
use crate::compiled;
use crate::grammar::{
    assignment_head, declaration, goto_line, input_guard, print_text_call, print_value_open,
    ParserState,
};
use crate::syntax::{
    block_entered, lines_apply, lines_blocks, lines_inputs, lines_plain, operations_apply,
    relations_apply, symbol, Comparison, Expression, Line, Operand, Program, Statement,
};
use crate::token::TokenType;

verus! {

/// The opening and the closing brace.
pub open spec fn is_brace(c: char) -> bool {
    c == '{' || c == '}'
}

/// No operator is written with a brace.
pub(crate) proof fn lemma_symbol_count(kind: TokenType, c: char)
    requires
        is_brace(c),
    ensures
        count(symbol(kind), c) == 0,
{
    reveal_strlit("=");
    reveal_strlit("+");
    reveal_strlit("-");
    reveal_strlit("*");
    reveal_strlit("/");
    reveal_strlit("==");
    reveal_strlit("!=");
    reveal_strlit("<");
    reveal_strlit("<=");
    reveal_strlit(">");
    reveal_strlit(">=");
    lemma_count_absent(symbol(kind), c);
}

/// The braces in the fixed texts of the translation of statements.
pub(crate) proof fn lemma_statement_texts(c: char)
    requires
        is_brace(c),
    ensures
        count("printf(\""@, c) == 0,
        count("\\n\");"@, c) == 0,
        count(print_value_open(), c) == 0,
        count("));"@, c) == 0,
        count("if("@, c) == 0,
        count("while("@, c) == 0,
        count("){"@, c) == one_if(c, '{'),
        count("}"@, c) == one_if(c, '}'),
        count(":"@, c) == 0,
        count("goto "@, c) == 0,
        count(";"@, c) == 0,
        count(" = "@, c) == 0,
{
    reveal_strlit("printf(\"");
    reveal_strlit("\\n\");");
    reveal_strlit("printf(\"%.2f\\n\", (float)(");
    reveal_strlit("));");
    reveal_strlit("if(");
    reveal_strlit("while(");
    reveal_strlit("){");
    reveal_strlit("}");
    reveal_strlit(":");
    reveal_strlit("goto ");
    reveal_strlit(";");
    reveal_strlit(" = ");
    lemma_count_absent("printf(\""@, c);
    lemma_count_absent("\\n\");"@, c);
    lemma_count_absent(print_value_open(), c);
    lemma_count_absent("));"@, c);
    lemma_count_absent("if("@, c);
    lemma_count_absent("while("@, c);
    lemma_count_absent(":"@, c);
    lemma_count_absent("goto "@, c);
    lemma_count_absent(";"@, c);
    lemma_count_absent(" = "@, c);
    if c == '{' {
        lemma_count_once("){"@, c, 1);
        lemma_count_absent("}"@, c);
    } else {
        lemma_count_absent("){"@, c);
        lemma_count_once("}"@, c, 0);
    }
}

/// The braces in the fixed texts of declarations, of the translation of `INPUT`, and of
/// the frame of the program.
pub(crate) proof fn lemma_frame_texts(c: char)
    requires
        is_brace(c),
    ensures
        count("float "@, c) == 0,
        count("if(0 == scanf(\"%f\", &"@, c) == 0,
        count(")) {\n"@, c) == one_if(c, '{'),
        count(" = 0;"@, c) == 0,
        count("scanf(\"%"@, c) == 0,
        count("*s\");"@, c) == 0,
        count("return 0;"@, c) == 0,
        count("# include <stdio.h>"@, c) == 0,
        count("int main(void){"@, c) == one_if(c, '{'),
{
    reveal_strlit("float ");
    reveal_strlit("if(0 == scanf(\"%f\", &");
    reveal_strlit(")) {\n");
    reveal_strlit(" = 0;");
    reveal_strlit("scanf(\"%");
    reveal_strlit("*s\");");
    reveal_strlit("return 0;");
    reveal_strlit("# include <stdio.h>");
    reveal_strlit("int main(void){");
    lemma_count_absent("float "@, c);
    lemma_count_absent("if(0 == scanf(\"%f\", &"@, c);
    lemma_count_absent(" = 0;"@, c);
    lemma_count_absent("scanf(\"%"@, c);
    lemma_count_absent("*s\");"@, c);
    lemma_count_absent("return 0;"@, c);
    lemma_count_absent("# include <stdio.h>"@, c);
    if c == '{' {
        lemma_count_once(")) {\n"@, c, 3);
        lemma_count_once("int main(void){"@, c, 14);
    } else {
        lemma_count_absent(")) {\n"@, c);
        lemma_count_absent("int main(void){"@, c);
    }
}

/// What emitting a text adds to the counts.
pub(crate) proof fn lemma_emit_count(s: ParserState, code: Seq<char>, c: char)
    requires
        !s.failed(),
    ensures
        count(s.emit(code).body, c) == count(s.body, c) + count(code, c),
        count(s.emit_line(code).body, c) == count(s.body, c) + count(code, c) + one_if(c, '\n'),
        count(s.header_line(code).prologue, c) == count(s.prologue, c) + count(code, c) + one_if(
            c,
            '\n',
        ),
{
    lemma_count_concat(s.body, code, c);
    lemma_count_push(s.body + code, '\n', c);
    lemma_count_concat(s.prologue, code, c);
    lemma_count_push(s.prologue + code, '\n', c);
}

/// Braces as they were: the body and the prologue of `after` hold as many of `c` as those
/// of `before`, and `more` in the body besides. Neither state has failed.
pub open spec fn adds(after: ParserState, before: ParserState, c: char, more: nat) -> bool {
    &&& !after.failed()
    &&& count(after.body, c) == count(before.body, c) + more
    &&& count(after.prologue, c) == count(before.prologue, c)
}

proof fn lemma_declare_count(s: ParserState, name: Seq<char>, c: char)
    requires
        is_brace(c),
        !s.failed(),
        braceless(name),
    ensures
        adds(s.declare(name), s, c, 0),
{
    lemma_frame_texts(c);
    lemma_statement_texts(c);
    lemma_count_concat("float "@, name, c);
    lemma_count_concat("float "@ + name, ";"@, c);
    lemma_emit_count(ParserState { variables: s.variables.push(name), ..s }, declaration(name), c);
}

proof fn lemma_operand_count(x: Operand, s: ParserState, c: char)
    requires
        is_brace(c),
        !s.failed(),
        x.plain(),
    ensures
        adds(x.apply(s), s, c, 0),
{
    match x.sign {
        Some(sign) => {
            lemma_symbol_count(sign, c);
            lemma_emit_count(s, symbol(sign), c);
            lemma_emit_count(s.emit(symbol(sign)), x.text, c);
        },
        None => {
            lemma_emit_count(s, x.text, c);
        },
    }
}

proof fn lemma_operations_count(rest: Seq<(TokenType, Operand)>, s: ParserState, c: char)
    requires
        is_brace(c),
        !s.failed(),
        forall|i: int| 0 <= i < rest.len() ==> (#[trigger] rest[i]).1.plain(),
    ensures
        adds(operations_apply(rest, s), s, c, 0),
    decreases rest.len(),
{
    if rest.len() > 0 {
        let s1 = s.emit(symbol(rest[0].0));
        lemma_symbol_count(rest[0].0, c);
        lemma_emit_count(s, symbol(rest[0].0), c);
        lemma_operand_count(rest[0].1, s1, c);
        let tail = rest.drop_first();
        assert forall|i: int| 0 <= i < tail.len() implies (#[trigger] tail[i]).1.plain() by {
            assert(tail[i] == rest[i + 1]);
        }
        lemma_operations_count(tail, rest[0].1.apply(s1), c);
    }
}

proof fn lemma_expression_count(x: Expression, s: ParserState, c: char)
    requires
        is_brace(c),
        !s.failed(),
        x.plain(),
    ensures
        adds(x.apply(s), s, c, 0),
{
    lemma_operand_count(x.first, s, c);
    lemma_operations_count(x.rest, x.first.apply(s), c);
}

proof fn lemma_relations_count(rest: Seq<(TokenType, Expression)>, s: ParserState, c: char)
    requires
        is_brace(c),
        !s.failed(),
        forall|i: int| 0 <= i < rest.len() ==> (#[trigger] rest[i]).1.plain(),
    ensures
        adds(relations_apply(rest, s), s, c, 0),
    decreases rest.len(),
{
    if rest.len() > 0 {
        let s1 = s.emit(symbol(rest[0].0));
        lemma_symbol_count(rest[0].0, c);
        lemma_emit_count(s, symbol(rest[0].0), c);
        lemma_expression_count(rest[0].1, s1, c);
        let tail = rest.drop_first();
        assert forall|i: int| 0 <= i < tail.len() implies (#[trigger] tail[i]).1.plain() by {
            assert(tail[i] == rest[i + 1]);
        }
        lemma_relations_count(tail, rest[0].1.apply(s1), c);
    }
}

proof fn lemma_block_entered_count(
    condition: Comparison,
    opening: Seq<char>,
    s: ParserState,
    c: char,
)
    requires
        is_brace(c),
        !s.failed(),
        condition.plain(),
        opening == "if("@ || opening == "while("@,
    ensures
        adds(block_entered(condition, opening, s), s, c, one_if(c, '{')),
{
    lemma_statement_texts(c);
    lemma_emit_count(s, opening, c);
    let s1 = s.emit(opening);
    lemma_expression_count(condition.first, s1, c);
    lemma_relations_count(condition.rest, condition.first.apply(s1), c);
    lemma_emit_count(condition.apply(s1), "){"@, c);
}

proof fn lemma_print_text_count(literal: Seq<char>, s: ParserState, c: char)
    requires
        is_brace(c),
        !s.failed(),
        braceless(literal),
    ensures
        adds(s.emit_line(print_text_call(literal)), s, c, 0),
{
    lemma_statement_texts(c);
    lemma_count_concat("printf(\""@, literal, c);
    lemma_count_concat("printf(\""@ + literal, "\\n\");"@, c);
    lemma_emit_count(s, print_text_call(literal), c);
}

proof fn lemma_input_count(name: Seq<char>, s: ParserState, c: char)
    requires
        is_brace(c),
        !s.failed(),
        braceless(name),
    ensures
        adds((Statement::Input { name }).apply(s), s, c, 1),
{
    lemma_statement_texts(c);
    lemma_frame_texts(c);
    lemma_declare_count(s, name, c);
    let s1 = s.declare(name);
    let a = "if(0 == scanf(\"%f\", &"@;
    lemma_count_concat(a, name, c);
    lemma_count_concat(a + name, ")) {\n"@, c);
    lemma_count_concat(a + name + ")) {\n"@, name, c);
    lemma_count_concat(a + name + ")) {\n"@ + name, " = 0;"@, c);
    lemma_emit_count(s1, input_guard(name), c);
    let s2 = s1.emit_line(input_guard(name));
    lemma_emit_count(s2, "scanf(\"%"@, c);
    let s3 = s2.emit("scanf(\"%"@);
    lemma_emit_count(s3, "*s\");"@, c);
    let s4 = s3.emit_line("*s\");"@);
    lemma_emit_count(s4, "}"@, c);
}

/// A statement whose texts hold no brace adds one pair of braces to the body for each
/// `IF`, `WHILE` and `INPUT` in it, and none to the prologue.
pub(crate) proof fn lemma_statement_count(statement: Statement, s: ParserState, c: char)
    requires
        is_brace(c),
        !s.failed(),
        statement.plain(),
    ensures
        adds(statement.apply(s), s, c, statement.blocks() + statement.inputs()),
    decreases statement, 0nat,
{
    lemma_statement_texts(c);
    match statement {
        Statement::PrintText { literal } => {
            lemma_print_text_count(literal, s, c);
        },
        Statement::PrintValue { value } => {
            lemma_emit_count(s, print_value_open(), c);
            lemma_expression_count(value, s.emit(print_value_open()), c);
            lemma_emit_count(value.apply(s.emit(print_value_open())), "));"@, c);
        },
        Statement::If { condition, blank, body } => {
            let entered = block_entered(condition, "if("@, s);
            lemma_block_entered_count(condition, "if("@, s, c);
            lemma_lines_count(body, entered, c);
            lemma_emit_count(lines_apply(body, entered), "}"@, c);
        },
        Statement::While { condition, blank, body } => {
            let entered = block_entered(condition, "while("@, s);
            lemma_block_entered_count(condition, "while("@, s, c);
            lemma_lines_count(body, entered, c);
            lemma_emit_count(lines_apply(body, entered), "}"@, c);
        },
        Statement::Label { name } => {
            let s1 = s.label(name);
            lemma_emit_count(s1, name, c);
            lemma_emit_count(s1.emit(name), ":"@, c);
        },
        Statement::Goto { name } => {
            lemma_count_concat("goto "@, name, c);
            lemma_count_concat("goto "@ + name, ";"@, c);
            lemma_emit_count(s.refer(name), goto_line(name), c);
        },
        Statement::Let { name, value } => {
            lemma_declare_count(s, name, c);
            let s1 = s.declare(name);
            lemma_count_concat(name, " = "@, c);
            lemma_emit_count(s1, assignment_head(name), c);
            let s2 = s1.emit(assignment_head(name));
            lemma_expression_count(value, s2, c);
            lemma_emit_count(value.apply(s2), ";"@, c);
        },
        Statement::Input { name } => {
            lemma_input_count(name, s, c);
        },
    }
}

/// A run of statements whose texts hold no brace adds one pair of braces to the body for
/// each `IF`, `WHILE` and `INPUT` in it, and none to the prologue.
pub(crate) proof fn lemma_lines_count(lines: Seq<Line>, s: ParserState, c: char)
    requires
        is_brace(c),
        !s.failed(),
        lines_plain(lines),
    ensures
        adds(lines_apply(lines, s), s, c, lines_blocks(lines) + lines_inputs(lines)),
    decreases lines, 0nat,
{
    if lines.len() > 0 {
        lemma_statement_count(lines[0].statement, s, c);
        lemma_lines_count(lines.drop_first(), lines[0].statement.apply(s), c);
    }
}

/// **Braces come in pairs.** The translation of a program whose numbers, names and string
/// literals hold no brace has as many opening as closing braces: one pair for the entry
/// function, one for each `IF`, one for each `WHILE`, and one for each `INPUT`, whose
/// translation guards the read.
pub proof fn law_braces(program: Program)
    requires
        program.plain(),
    ensures
        count(program.translation(), '{') == 1 + program.blocks() + program.inputs(),
        count(program.translation(), '}') == 1 + program.blocks() + program.inputs(),
{
    lemma_braces_of(program, '{');
    lemma_braces_of(program, '}');
}

proof fn lemma_braces_of(program: Program, c: char)
    requires
        is_brace(c),
        program.plain(),
    ensures
        count(program.translation(), c) == 1 + program.blocks() + program.inputs(),
{
    lemma_statement_texts(c);
    lemma_frame_texts(c);
    let blank = ParserState::blank();
    lemma_emit_count(blank, "# include <stdio.h>"@, c);
    let s1 = blank.header_line("# include <stdio.h>"@);
    lemma_emit_count(s1, "int main(void){"@, c);
    let opened = Program::opened(blank);
    assert(count(blank.body, c) == 0);
    assert(count(blank.prologue, c) == 0);
    lemma_lines_count(program.lines, opened, c);
    let done = lines_apply(program.lines, opened);
    lemma_emit_count(done, "return 0;"@, c);
    let s2 = done.emit_line("return 0;"@);
    lemma_emit_count(s2, "}"@, c);
    let end = program.outcome();
    lemma_count_concat(end.prologue, end.body, c);
}

/// **The translation of a well-formed program.** Let a source text be written with the
/// tokens of a valid program. Then its compilation succeeds. The result is the opening of
/// the entry function, then one declaration for each distinct variable that a `LET` or an
/// `INPUT` names, then the body. And where no number, name or string literal of the
/// program holds a brace, the result holds one pair of braces for the entry function, one
/// for each `IF` and `WHILE`, and one for each `INPUT`.
pub proof fn law_translation_of_valid_program(source: Seq<char>, program: Program)
    requires
        program.valid(),
        is_written(source, program),
    ensures
        !compiled(source).failed(),
        compiled(source).artifact() == opening() + declarations(first_uses(program.targets()))
            + compiled(source).body,
        first_uses(program.targets()).no_duplicates(),
        forall|name: Seq<char>|
            first_uses(program.targets()).contains(name) <==> program.targets().contains(name),
        program.plain() ==> count(compiled(source).artifact(), '{') == 1 + program.blocks()
            + program.inputs(),
        program.plain() ==> count(compiled(source).artifact(), '}') == 1 + program.blocks()
            + program.inputs(),
{
    law_valid_program_compiles(source, program);
    law_one_declaration_per_variable(program);
    if program.plain() {
        law_braces(program);
    }
}

} // verus!
