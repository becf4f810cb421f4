use teeny::emit::Emitter;
use teeny::error::{CompileError, LexicalError, SemanticError, SyntaxError};
use teeny::lex::Lexer;
use teeny::parser::Parser;
use teeny::token::{Token, TokenType};

fn parser_for(source: &str) -> Parser {
    let mut text = source.to_string();
    text.push_str("\n\0");
    Parser::new(Lexer::new(text), Emitter::new("out.c".to_string())).unwrap()
}

fn names(list: &[&str]) -> Vec<String> {
    list.iter().map(|name| name.to_string()).collect()
}

#[test]
fn new_parser_holds_the_first_two_tokens() {
    let parser = parser_for("PRINT 1");
    assert_eq!(parser.current_token, Some(Token::new(Some("PRINT".to_string()), TokenType::PRINT)));
    assert_eq!(parser.peek_token, Some(Token::new(Some("1".to_string()), TokenType::NUMBER)));
    assert!(parser.symbols.is_empty());
    assert!(parser.declared_labels.is_empty());
    assert!(parser.gotoed_labels.is_empty());
    assert_eq!(parser.emit.finalize(), "");
    assert_eq!(parser.emit.file_path(), "out.c");
    assert_eq!(parser.lex.current_pos, 7);
}

#[test]
fn new_parser_on_an_empty_program() {
    let parser = parser_for("");
    assert_eq!(parser.current_token, Some(Token::new(Some("\n".to_string()), TokenType::NEWLINE)));
    assert_eq!(parser.peek_token, Some(Token::new(None, TokenType::EOF)));
}

#[test]
fn new_parser_fails_on_a_malformed_token_in_its_window() {
    let lexer = Lexer::new("PRINT !".to_string());
    let result = Parser::new(lexer, Emitter::new(String::new()));
    assert_eq!(result.err(), Some(CompileError::Lexical(LexicalError::LoneBang { position: 6 })));
    let lexer = Lexer::new("\"abc".to_string());
    let result = Parser::new(lexer, Emitter::new(String::new()));
    assert_eq!(
        result.err(),
        Some(CompileError::Lexical(LexicalError::UnterminatedString { position: 0 }))
    );
}

#[test]
fn parser_without_a_token_fails_when_it_needs_one() {
    let mut empty = Parser::new(Lexer::new(String::new()), Emitter::new(String::new())).unwrap();
    assert_eq!(empty.current_token, None);
    assert_eq!(empty.peek_token, None);
    assert_eq!(
        empty.statement(),
        Err(CompileError::Lexical(LexicalError::EndOfText { position: 2 }))
    );
    let mut stuck = Parser::new(Lexer::new("@".to_string()), Emitter::new(String::new())).unwrap();
    assert_eq!(
        stuck.program(),
        Err(CompileError::Lexical(LexicalError::UnrecognizedCharacter { found: '@', position: 0 }))
    );
}

#[test]
fn text_without_the_end_of_input_runs_out() {
    let lexer = Lexer::new("PRINT 1".to_string());
    let mut parser = Parser::new(lexer, Emitter::new(String::new())).unwrap();
    assert_eq!(
        parser.statement(),
        Err(CompileError::Lexical(LexicalError::EndOfText { position: 9 }))
    );
}

#[test]
fn statement_translates_one_statement_and_stops() {
    let mut parser = parser_for("PRINT \"one\"\n\nPRINT \"two\"");
    assert_eq!(parser.statement(), Ok(()));
    assert_eq!(parser.emit.finalize(), "printf(\"one\\n\");\n");
    assert_eq!(parser.current_token.as_ref().unwrap().token_type, TokenType::PRINT);
    assert_eq!(parser.peek_token.as_ref().unwrap().token_type, TokenType::STRING);
    assert_eq!(parser.statement(), Ok(()));
    assert_eq!(parser.emit.finalize(), "printf(\"one\\n\");\nprintf(\"two\\n\");\n");
    assert_eq!(parser.current_token.as_ref().unwrap().token_type, TokenType::EOF);
    assert_eq!(parser.peek_token, None);
}

#[test]
fn let_declares_on_first_use_only() {
    let mut parser = parser_for("LET a = 1\nLET a = a + 1\nLET b = a");
    assert_eq!(parser.statement(), Ok(()));
    assert_eq!(parser.symbols, names(&["a"]));
    assert_eq!(parser.emit.finalize(), "float a;\na = 1;\n");
    assert_eq!(parser.statement(), Ok(()));
    assert_eq!(parser.symbols, names(&["a"]));
    assert_eq!(parser.emit.finalize(), "float a;\na = 1;\na = a+1;\n");
    assert_eq!(parser.statement(), Ok(()));
    assert_eq!(parser.symbols, names(&["a", "b"]));
    assert_eq!(parser.emit.finalize(), "float a;\nfloat b;\na = 1;\na = a+1;\nb = a;\n");
}

#[test]
fn let_declares_its_variable_before_its_expression_is_read() {
    let mut parser = parser_for("LET a = a");
    assert_eq!(parser.statement(), Ok(()));
    assert_eq!(parser.emit.finalize(), "float a;\na = a;\n");
}

#[test]
fn input_declares_and_guards_the_read() {
    let mut parser = parser_for("INPUT n\nINPUT n");
    assert_eq!(parser.statement(), Ok(()));
    assert_eq!(parser.symbols, names(&["n"]));
    assert_eq!(
        parser.emit.finalize(),
        "float n;\nif(0 == scanf(\"%f\", &n)) {\nn = 0;\nscanf(\"%*s\");\n}\n"
    );
    assert_eq!(parser.statement(), Ok(()));
    assert_eq!(parser.symbols, names(&["n"]));
    assert_eq!(
        parser.emit.finalize(),
        "float n;\nif(0 == scanf(\"%f\", &n)) {\nn = 0;\nscanf(\"%*s\");\n}\n\
         if(0 == scanf(\"%f\", &n)) {\nn = 0;\nscanf(\"%*s\");\n}\n"
    );
}

#[test]
fn labels_and_gotos_are_recorded() {
    let mut parser = parser_for("GOTO end\nLABEL top\nGOTO top\nGOTO end\nLABEL end");
    for _ in 0..5 {
        assert_eq!(parser.statement(), Ok(()));
    }
    assert_eq!(parser.gotoed_labels, names(&["end", "top"]));
    assert_eq!(parser.declared_labels, names(&["top", "end"]));
    assert!(parser.symbols.is_empty());
    assert_eq!(parser.emit.finalize(), "goto end;\ntop:\ngoto top;\ngoto end;\nend:\n");
}

#[test]
fn second_label_of_a_name_fails_where_it_stands() {
    let mut parser = parser_for("LABEL start\nPRINT 1\nLABEL start\nPRINT @");
    assert_eq!(parser.statement(), Ok(()));
    assert_eq!(parser.statement(), Ok(()));
    assert_eq!(
        parser.statement(),
        Err(CompileError::Semantic(SemanticError::DuplicateLabel { name: "start".to_string() }))
    );
}

#[test]
fn goto_is_accepted_where_it_stands() {
    let mut parser = parser_for("GOTO missing");
    assert_eq!(parser.statement(), Ok(()));
    assert_eq!(parser.gotoed_labels, names(&["missing"]));
    assert_eq!(parser.current_token.as_ref().unwrap().token_type, TokenType::EOF);
    let mut whole = parser_for("GOTO missing");
    assert_eq!(
        whole.program(),
        Err(CompileError::Semantic(SemanticError::UnresolvedGoto { name: "missing".to_string() }))
    );
}

#[test]
fn block_statements_nest() {
    let mut parser = parser_for(
        "INPUT a\nWHILE a > 0 REPEAT\n\n  IF a == 1 THEN\n    PRINT \"last\"\n  ENDIF\n  LET a = a - 1\nENDWHILE\nPRINT a",
    );
    assert_eq!(parser.statement(), Ok(()));
    let before = parser.emit.finalize();
    assert_eq!(parser.statement(), Ok(()));
    let after = parser.emit.finalize();
    assert_eq!(
        &after[before.len()..],
        "while(a>0){\nif(a==1){\nprintf(\"last\\n\");\n}\na = a-1;\n}\n"
    );
    assert_eq!(parser.current_token.as_ref().unwrap().token_type, TokenType::PRINT);
}

#[test]
fn statement_reports_what_it_found() {
    let mut parser = parser_for("ENDIF");
    assert_eq!(
        parser.statement(),
        Err(CompileError::Syntax(SyntaxError::ExpectedStatement { found: TokenType::ENDIF }))
    );
    let mut parser = parser_for("PRINT +");
    assert_eq!(
        parser.statement(),
        Err(CompileError::Syntax(SyntaxError::ExpectedPrimary { found: TokenType::NEWLINE }))
    );
    let mut parser = parser_for("PRINT 1 +");
    assert_eq!(
        parser.statement(),
        Err(CompileError::Syntax(SyntaxError::ExpectedPrimary { found: TokenType::NEWLINE }))
    );
    let mut parser = parser_for("PRINT 1 * / 2");
    assert_eq!(
        parser.statement(),
        Err(CompileError::Syntax(SyntaxError::ExpectedPrimary { found: TokenType::SLASH }))
    );
    let mut parser = parser_for("PRINT 1 2");
    assert_eq!(
        parser.statement(),
        Err(CompileError::Syntax(SyntaxError::Expected {
            expected: TokenType::NEWLINE,
            found: TokenType::NUMBER
        }))
    );
    let mut parser = parser_for("LET a == 1");
    assert_eq!(
        parser.statement(),
        Err(CompileError::Syntax(SyntaxError::Expected {
            expected: TokenType::EQ,
            found: TokenType::EQEQ
        }))
    );
}

#[test]
fn program_frames_the_statements() {
    let mut parser = parser_for("\n\nPRINT 1.5\n");
    assert_eq!(parser.program(), Ok(()));
    assert_eq!(
        parser.emit.finalize(),
        "# include <stdio.h>\nint main(void){\nprintf(\"%.2f\\n\", (float)(1.5));\nreturn 0;\n}\n"
    );
    assert_eq!(parser.current_token, Some(Token::new(None, TokenType::EOF)));
}

#[test]
fn program_stops_at_the_first_failure() {
    let mut parser = parser_for("PRINT x\nLABEL a\nLABEL a\nGOTO nowhere");
    assert_eq!(
        parser.program(),
        Err(CompileError::Semantic(SemanticError::UndeclaredVariable { name: "x".to_string() }))
    );
    let mut parser = parser_for("GOTO nowhere\nLABEL a\nLABEL a");
    assert_eq!(
        parser.program(),
        Err(CompileError::Semantic(SemanticError::DuplicateLabel { name: "a".to_string() }))
    );
}

#[test]
fn empty_program_has_only_the_frame() {
    let mut parser = Parser::new(Lexer::new("\n\0".to_string()), Emitter::new("o.c".to_string()))
        .unwrap();
    assert_eq!(parser.program(), Ok(()));
    assert_eq!(parser.emit.finalize(), "# include <stdio.h>\nint main(void){\nreturn 0;\n}\n");
    assert!(parser.symbols.is_empty());
    assert!(parser.declared_labels.is_empty());
    assert!(parser.gotoed_labels.is_empty());
}

#[test]
fn wrong_closer_is_reported_with_the_expected_one() {
    let mut parser = parser_for("INPUT a\nWHILE a < a REPEAT\nENDIF\n");
    assert_eq!(parser.statement(), Ok(()));
    let before = parser.emit.finalize();
    assert_eq!(
        parser.statement(),
        Err(CompileError::Syntax(SyntaxError::Expected {
            expected: TokenType::ENDWHILE,
            found: TokenType::ENDIF
        }))
    );
    // the head of the loop was emitted, its closing brace was not
    assert_eq!(parser.emit.finalize(), format!("{}while(a<a){{\n", before));
    assert_eq!(parser.current_token.as_ref().unwrap().token_type, TokenType::ENDIF);
}

#[test]
fn after_a_duplicate_label_the_parser_holds_what_it_held() {
    let mut parser = parser_for("LABEL start\nLABEL start\n");
    assert_eq!(parser.statement(), Ok(()));
    assert_eq!(
        parser.statement(),
        Err(CompileError::Semantic(SemanticError::DuplicateLabel { name: "start".to_string() }))
    );
    assert_eq!(parser.declared_labels, names(&["start"]));
    assert_eq!(parser.emit.finalize(), "start:\n");
    assert!(parser.symbols.is_empty());
    assert!(parser.gotoed_labels.is_empty());
}

#[test]
fn a_token_that_begins_no_statement_changes_nothing() {
    for source in ["a = 1", "5", "\"text\"", "THEN", "ENDIF", "= 1", ""] {
        let mut parser = parser_for(&format!("LET x = 1\nGOTO l\nLABEL l\n{}", source));
        for _ in 0..3 {
            assert_eq!(parser.statement(), Ok(()));
        }
        let current = parser.current_token.clone();
        let peek = parser.peek_token.clone();
        let emitted = parser.emit.finalize();
        let found = current.as_ref().unwrap().token_type;
        assert_eq!(
            parser.statement(),
            Err(CompileError::Syntax(SyntaxError::ExpectedStatement { found }))
        );
        assert_eq!(parser.current_token, current);
        assert_eq!(parser.peek_token, peek);
        assert_eq!(parser.emit.finalize(), emitted);
        assert_eq!(parser.symbols, names(&["x"]));
        assert_eq!(parser.declared_labels, names(&["l"]));
        assert_eq!(parser.gotoed_labels, names(&["l"]));
    }
}

#[test]
fn after_a_comparison_without_operator_only_the_first_operand_is_emitted() {
    let mut parser = parser_for("LET a = 1\nLET b = 2\nIF a b THEN\nENDIF\n");
    assert_eq!(parser.statement(), Ok(()));
    assert_eq!(parser.statement(), Ok(()));
    let before = parser.emit.finalize();
    assert_eq!(
        parser.statement(),
        Err(CompileError::Syntax(SyntaxError::ExpectedComparison { found: TokenType::IDENT }))
    );
    assert_eq!(parser.emit.finalize(), format!("{}if(a", before));
    assert_eq!(parser.symbols, names(&["a", "b"]));
}

#[test]
fn after_an_undeclared_variable_nothing_has_changed() {
    let mut parser = parser_for("PRINT a");
    assert_eq!(
        parser.statement(),
        Err(CompileError::Semantic(SemanticError::UndeclaredVariable { name: "a".to_string() }))
    );
    assert_eq!(parser.emit.finalize(), "printf(\"%.2f\\n\", (float)(");
    assert!(parser.symbols.is_empty());
    assert_eq!(parser.current_token.as_ref().unwrap().token_type, TokenType::IDENT);
}

#[test]
fn after_a_missing_token_names_and_output_are_as_they_were() {
    let mut parser = parser_for("LET a = 1\nLET b 2\n");
    assert_eq!(parser.statement(), Ok(()));
    assert_eq!(
        parser.statement(),
        Err(CompileError::Syntax(SyntaxError::Expected {
            expected: TokenType::EQ,
            found: TokenType::NUMBER
        }))
    );
    // the variable was declared and the head of the assignment emitted before `=` was missed
    assert_eq!(parser.symbols, names(&["a", "b"]));
    assert_eq!(parser.emit.finalize(), "float a;\nfloat b;\na = 1;\nb = ");
    assert_eq!(parser.current_token.as_ref().unwrap().token_type, TokenType::NUMBER);
}
