use teeny::compile;
use teeny::error::{CompileError, ErrorKind, LexicalError, SemanticError, SyntaxError};
use teeny::token::TokenType;

const OPENING: &str = "# include <stdio.h>\nint main(void){\n";

fn framed(declarations: &str, statements: &str) -> String {
    let mut text = String::from(OPENING);
    text.push_str(declarations);
    text.push_str(statements);
    text.push_str("return 0;\n}\n");
    text
}

#[test]
fn it_handles_hello_world() {
    assert!(compile("PRINT \"hello, world!\"").is_ok());
}

#[test]
fn hello_world_text() {
    let out = compile("PRINT \"hello, world!\"\n").unwrap();
    assert_eq!(
        out,
        "# include <stdio.h>\nint main(void){\nprintf(\"hello, world!\\n\");\nreturn 0;\n}\n"
    );
}

#[test]
fn print_string_emits_the_call_verbatim() {
    let out = compile("PRINT \"hi\"").unwrap();
    assert_eq!(out, framed("", "printf(\"hi\\n\");\n"));
    let after_declarations = compile("LET a = 1\nINPUT b\nPRINT \"hi\"").unwrap();
    assert!(after_declarations.contains("\nprintf(\"hi\\n\");\n"));
}

#[test]
fn it_handles_expressions() {
    let source = "LET a = 1 + 2 * 3\nLET b = a / 4 - -1\nPRINT a + b\nPRINT +a*-b\n";
    let out = compile(source);
    assert!(out.is_ok());
    assert_eq!(
        out.unwrap(),
        "# include <stdio.h>\nint main(void){\nfloat a;\nfloat b;\n\
         a = 1+2*3;\n\
         b = a/4--1;\n\
         printf(\"%.2f\\n\", (float)(a+b));\n\
         printf(\"%.2f\\n\", (float)(+a*-b));\n\
         return 0;\n}\n"
    );
}

#[test]
fn it_handles_loops() {
    let source = "LET a = 0\nWHILE a < 5 REPEAT\n    PRINT a\n    LET a = a + 1\nENDWHILE\n";
    let out = compile(source);
    assert!(out.is_ok());
    assert_eq!(
        out.unwrap(),
        "# include <stdio.h>\nint main(void){\nfloat a;\n\
         a = 0;\n\
         while(a<5){\n\
         printf(\"%.2f\\n\", (float)(a));\n\
         a = a+1;\n\
         }\n\
         return 0;\n}\n"
    );
}

#[test]
fn it_handles_nested_loops() {
    let source = "LET i = 0\n\
                  WHILE i < 3 REPEAT\n\
                  \tLET j = 0\n\
                  \tWHILE j <= i REPEAT\n\
                  \t\tIF j != 1 THEN\n\
                  \t\t\tPRINT i * j\n\
                  \t\tENDIF\n\
                  \t\tLET j = j + 1\n\
                  \tENDWHILE\n\
                  \tLET i = i + 1\n\
                  ENDWHILE\n";
    let out = compile(source);
    assert!(out.is_ok());
    assert_eq!(
        out.unwrap(),
        "# include <stdio.h>\nint main(void){\nfloat i;\nfloat j;\n\
         i = 0;\n\
         while(i<3){\n\
         j = 0;\n\
         while(j<=i){\n\
         if(j!=1){\n\
         printf(\"%.2f\\n\", (float)(i*j));\n\
         }\n\
         j = j+1;\n\
         }\n\
         i = i+1;\n\
         }\n\
         return 0;\n}\n"
    );
}

#[test]
fn it_handles_complex_programs() {
    let source = "PRINT \"How many fibonacci numbers do you want?\"\n\
                  INPUT nums\n\
                  PRINT \"\"\n\
                  \n\
                  # the first two numbers\n\
                  LET a = 0\n\
                  LET b = 1\n\
                  LABEL again\n\
                  WHILE nums > 0 REPEAT\n\
                  \x20   PRINT a   # the next one\n\
                  \x20   LET c = a + b\n\
                  \x20   LET a = b\n\
                  \x20   LET b = c\n\
                  \x20   LET nums = nums - 1\n\
                  ENDWHILE\n\
                  IF a == 0 THEN\n\
                  \x20   GOTO again\n\
                  ENDIF\n";
    let out = compile(source);
    assert!(out.is_ok());
    assert_eq!(
        out.unwrap(),
        "# include <stdio.h>\nint main(void){\nfloat nums;\nfloat a;\nfloat b;\nfloat c;\n\
         printf(\"How many fibonacci numbers do you want?\\n\");\n\
         if(0 == scanf(\"%f\", &nums)) {\n\
         nums = 0;\n\
         scanf(\"%*s\");\n\
         }\n\
         printf(\"\\n\");\n\
         a = 0;\n\
         b = 1;\n\
         again:\n\
         while(nums>0){\n\
         printf(\"%.2f\\n\", (float)(a));\n\
         c = a+b;\n\
         a = b;\n\
         b = c;\n\
         nums = nums-1;\n\
         }\n\
         if(a==0){\n\
         goto again;\n\
         }\n\
         return 0;\n}\n"
    );
}

#[test]
fn it_breaks_on_incorrect_syntax() {
    let out = compile("PRINT \"start\"\nLET a 5\n");
    assert!(out.is_err());
    assert_eq!(
        out,
        Err(CompileError::Syntax(SyntaxError::Expected {
            expected: TokenType::EQ,
            found: TokenType::NUMBER
        }))
    );
}

#[test]
fn it_breaks_on_redeclared_labels() {
    let out = compile("LABEL start\nPRINT \"between\"\nLET a = 1\nLABEL start\n");
    assert!(out.is_err());
    assert_eq!(
        out,
        Err(CompileError::Semantic(SemanticError::DuplicateLabel { name: "start".to_string() }))
    );
}

#[test]
fn compiling_twice_gives_the_same_text() {
    let source = "INPUT n\nWHILE n > 0 REPEAT\nPRINT n\nLET n = n - 1\nENDWHILE\n";
    assert_eq!(compile(source), compile(source));
    let broken = "INPUT n\nWHILE n > 0 REPEAT\nPRINT m\n";
    assert_eq!(compile(broken), compile(broken));
}

#[test]
fn declared_variable_can_be_printed() {
    let out = compile("LET a = 5\nPRINT a");
    assert_eq!(out.unwrap(), framed("float a;\n", "a = 5;\nprintf(\"%.2f\\n\", (float)(a));\n"));
}

#[test]
fn undeclared_variable_is_named() {
    let out = compile("PRINT a");
    assert_eq!(
        out,
        Err(CompileError::Semantic(SemanticError::UndeclaredVariable { name: "a".to_string() }))
    );
    let later = compile("PRINT a\nLET a = 5\n");
    assert_eq!(
        later,
        Err(CompileError::Semantic(SemanticError::UndeclaredVariable { name: "a".to_string() }))
    );
}

#[test]
fn goto_without_label_fails_at_the_end() {
    let out = compile("GOTO missing\nPRINT \"after\"\nLET a = \n");
    // the statement after the jump is reached, so the jump itself was accepted
    assert_eq!(
        out,
        Err(CompileError::Syntax(SyntaxError::ExpectedPrimary { found: TokenType::NEWLINE }))
    );
    let out = compile("GOTO missing\nPRINT \"after\"\n");
    assert_eq!(
        out,
        Err(CompileError::Semantic(SemanticError::UnresolvedGoto { name: "missing".to_string() }))
    );
}

#[test]
fn goto_may_precede_its_label() {
    let out = compile("GOTO missing\nPRINT \"skipped\"\nLABEL missing\n");
    assert_eq!(out.unwrap(), framed("", "goto missing;\nprintf(\"skipped\\n\");\nmissing:\n"));
}

#[test]
fn first_unresolved_goto_is_reported() {
    let out = compile("GOTO one\nGOTO two\nGOTO one\nLABEL three\n");
    assert_eq!(
        out,
        Err(CompileError::Semantic(SemanticError::UnresolvedGoto { name: "one".to_string() }))
    );
    let out = compile("GOTO one\nGOTO two\nLABEL one\n");
    assert_eq!(
        out,
        Err(CompileError::Semantic(SemanticError::UnresolvedGoto { name: "two".to_string() }))
    );
}

#[test]
fn comparison_needs_an_operator() {
    let out = compile("LET a = 1\nLET b = 2\nIF a b THEN\nENDIF\n");
    assert_eq!(
        out,
        Err(CompileError::Syntax(SyntaxError::ExpectedComparison { found: TokenType::IDENT }))
    );
    let out = compile("LET a = 1\nIF a THEN\nENDIF\n");
    assert_eq!(
        out,
        Err(CompileError::Syntax(SyntaxError::ExpectedComparison { found: TokenType::THEN }))
    );
}

#[test]
fn block_closers_must_match() {
    let out = compile("LET a = 1\nWHILE a < 2 REPEAT\nPRINT a\nENDIF\n");
    assert_eq!(
        out,
        Err(CompileError::Syntax(SyntaxError::Expected {
            expected: TokenType::ENDWHILE,
            found: TokenType::ENDIF
        }))
    );
    let out = compile("LET a = 1\nIF a < 2 THEN\nPRINT a\nENDWHILE\n");
    assert_eq!(
        out,
        Err(CompileError::Syntax(SyntaxError::Expected {
            expected: TokenType::ENDIF,
            found: TokenType::ENDWHILE
        }))
    );
    let out = compile("INPUT a\nWHILE a < a REPEAT\nENDIF\n");
    assert_eq!(
        out,
        Err(CompileError::Syntax(SyntaxError::Expected {
            expected: TokenType::ENDWHILE,
            found: TokenType::ENDIF
        }))
    );
    let out = compile("LET a = 1\nIF a < 2 THEN\na = 2\nENDIF\n");
    assert_eq!(
        out,
        Err(CompileError::Syntax(SyntaxError::Expected {
            expected: TokenType::ENDIF,
            found: TokenType::IDENT
        }))
    );
    let out = compile("PRINT 1\nENDIF\n");
    assert_eq!(
        out,
        Err(CompileError::Syntax(SyntaxError::ExpectedStatement { found: TokenType::ENDIF }))
    );
}

#[test]
fn block_keywords_are_required() {
    let out = compile("LET a = 1\nIF a < 2 REPEAT\nENDIF\n");
    assert_eq!(
        out,
        Err(CompileError::Syntax(SyntaxError::Expected {
            expected: TokenType::THEN,
            found: TokenType::REPEAT
        }))
    );
    let out = compile("LET a = 1\nWHILE a < 2 THEN\nENDWHILE\n");
    assert_eq!(
        out,
        Err(CompileError::Syntax(SyntaxError::Expected {
            expected: TokenType::REPEAT,
            found: TokenType::THEN
        }))
    );
    let out = compile("LET a = 1\nIF a < 2 THEN PRINT a\nENDIF\n");
    assert_eq!(
        out,
        Err(CompileError::Syntax(SyntaxError::Expected {
            expected: TokenType::NEWLINE,
            found: TokenType::PRINT
        }))
    );
    let out = compile("LET a = 1\nIF a < 2 THEN\nPRINT a\n");
    assert_eq!(
        out,
        Err(CompileError::Syntax(SyntaxError::Expected {
            expected: TokenType::ENDIF,
            found: TokenType::EOF
        }))
    );
    let out = compile("LET a = 1\nWHILE a < 2 REPEAT\nPRINT a\n");
    assert_eq!(
        out,
        Err(CompileError::Syntax(SyntaxError::Expected {
            expected: TokenType::ENDWHILE,
            found: TokenType::EOF
        }))
    );
}

#[test]
fn chained_comparison_stays_a_chain() {
    let out = compile("LET a = 1\nIF a < 2 < 3 >= a THEN\nENDIF\n");
    assert_eq!(out.unwrap(), framed("float a;\n", "a = 1;\nif(a<2<3>=a){\n}\n"));
}

#[test]
fn every_relational_operator_is_copied() {
    for op in ["==", "!=", "<", "<=", ">", ">="] {
        let source = format!("LET a = 1\nWHILE a {} 2 REPEAT\nENDWHILE\n", op);
        let expected = format!("a = 1;\nwhile(a{}2){{\n}}\n", op);
        assert_eq!(compile(&source).unwrap(), framed("float a;\n", &expected));
    }
}

#[test]
fn variables_are_declared_once_in_order_of_first_use() {
    let out = compile("LET b = 1\nINPUT a\nLET b = 2\nINPUT a\nLET c = a\n").unwrap();
    assert!(out.starts_with("# include <stdio.h>\nint main(void){\nfloat b;\nfloat a;\nfloat c;\nb = 1;\n"));
    assert_eq!(out.matches("float ").count(), 3);
    assert_eq!(out.matches("int main(void){").count(), 1);
}

#[test]
fn braces_come_in_pairs() {
    let source = "INPUT a\nIF a > 0 THEN\nWHILE a > 0 REPEAT\nLET a = a - 1\nENDWHILE\nENDIF\n";
    let out = compile(source).unwrap();
    // the entry function, the fallback of INPUT, one IF and one WHILE
    assert_eq!(out.matches('{').count(), 4);
    assert_eq!(out.matches('}').count(), 4);
}

#[test]
fn empty_program_is_only_the_frame() {
    assert_eq!(compile("").unwrap(), framed("", ""));
    assert_eq!(compile("\n\n  \n# nothing\n").unwrap(), framed("", ""));
}

#[test]
fn keywords_ignore_case() {
    let out = compile("let a = 1\nPrInT a\n").unwrap();
    assert_eq!(out, framed("float a;\n", "a = 1;\nprintf(\"%.2f\\n\", (float)(a));\n"));
}

#[test]
fn keyword_is_no_name() {
    assert_eq!(
        compile("LET print = 1\n"),
        Err(CompileError::Syntax(SyntaxError::Expected {
            expected: TokenType::IDENT,
            found: TokenType::PRINT
        }))
    );
    assert_eq!(
        compile("LABEL 5\n"),
        Err(CompileError::Syntax(SyntaxError::Expected {
            expected: TokenType::IDENT,
            found: TokenType::NUMBER
        }))
    );
    assert_eq!(
        compile("GOTO \"x\"\n"),
        Err(CompileError::Syntax(SyntaxError::Expected {
            expected: TokenType::IDENT,
            found: TokenType::STRING
        }))
    );
    assert_eq!(
        compile("INPUT\n"),
        Err(CompileError::Syntax(SyntaxError::Expected {
            expected: TokenType::IDENT,
            found: TokenType::NEWLINE
        }))
    );
}

#[test]
fn statement_must_start_with_a_keyword() {
    assert_eq!(
        compile("a = 1\n"),
        Err(CompileError::Syntax(SyntaxError::ExpectedStatement { found: TokenType::IDENT }))
    );
    assert_eq!(
        compile("PRINT 1 PRINT 2\n"),
        Err(CompileError::Syntax(SyntaxError::Expected {
            expected: TokenType::NEWLINE,
            found: TokenType::PRINT
        }))
    );
}

#[test]
fn lexical_errors_end_the_run() {
    assert_eq!(
        compile("LET a = 1\nIF a ! 2 THEN\n"),
        Err(CompileError::Lexical(LexicalError::LoneBang { position: 15 }))
    );
    assert_eq!(
        compile("PRINT \"50%\"\n"),
        Err(CompileError::Lexical(LexicalError::InvalidStringCharacter {
            found: '%',
            position: 9
        }))
    );
    assert_eq!(
        compile("PRINT \"open"),
        Err(CompileError::Lexical(LexicalError::InvalidStringCharacter {
            found: '\n',
            position: 11
        }))
    );
    assert_eq!(
        compile("PRINT @\n"),
        Err(CompileError::Lexical(LexicalError::UnrecognizedCharacter {
            found: '@',
            position: 6
        }))
    );
}

#[test]
fn earlier_failure_wins_over_unrecognized_character() {
    // the lexer is one token ahead of the parser: the variable is looked at first
    assert_eq!(
        compile("PRINT a @\n"),
        Err(CompileError::Semantic(SemanticError::UndeclaredVariable { name: "a".to_string() }))
    );
    // a malformed token is fatal as soon as the lexer meets it
    assert_eq!(
        compile("PRINT a !\n"),
        Err(CompileError::Lexical(LexicalError::LoneBang { position: 8 }))
    );
}

#[test]
fn text_after_the_end_of_input_is_not_parsed() {
    assert_eq!(compile("PRINT 1\n\0 PRINT").unwrap(), compile("PRINT 1\n").unwrap());
    assert_eq!(compile("PRINT 1\n\0 !").unwrap(), compile("PRINT 1\n").unwrap());
    assert_eq!(compile("PRINT 1\n\0\"open").unwrap(), compile("PRINT 1\n").unwrap());
}

#[test]
fn error_kinds() {
    assert_eq!(compile("PRINT \"a\tb\"").unwrap_err().kind(), ErrorKind::Lexical);
    assert_eq!(compile("PRINT").unwrap_err().kind(), ErrorKind::Syntax);
    assert_eq!(compile("GOTO x").unwrap_err().kind(), ErrorKind::Semantic);
}

#[test]
fn numbers_keep_their_points() {
    let out = compile("LET a = 1.5.2\nPRINT 3.\n").unwrap();
    assert_eq!(out, framed("float a;\n", "a = 1.5.2;\nprintf(\"%.2f\\n\", (float)(3.));\n"));
}

#[test]
fn number_is_followed_by_what_stands_after_it() {
    let out = compile("LET a = 5\nLET b = a+5*2\n").unwrap();
    assert_eq!(out, framed("float a;\nfloat b;\n", "a = 5;\nb = a+5*2;\n"));
}
