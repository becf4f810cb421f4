use teeny::emit::Emitter;

#[test]
fn new_emitter_is_empty() {
    let emitter = Emitter::new("output/hello.c".to_string());
    assert_eq!(emitter.finalize(), "");
    assert_eq!(emitter.file_path(), "output/hello.c");
}

#[test]
fn emit_appends_to_the_body() {
    let mut emitter = Emitter::new(String::new());
    emitter.emit("a");
    emitter.emit(" = ");
    emitter.emit("");
    emitter.emit("1");
    assert_eq!(emitter.finalize(), "a = 1");
}

#[test]
fn emit_line_ends_the_line() {
    let mut emitter = Emitter::new(String::new());
    emitter.emit("a = 1");
    emitter.emit_line(";");
    emitter.emit_line("");
    emitter.emit_line("}");
    assert_eq!(emitter.finalize(), "a = 1;\n\n}\n");
}

#[test]
fn header_line_adds_a_line_to_the_prologue_only() {
    let mut emitter = Emitter::new("o.c".to_string());
    emitter.header_line("# include <stdio.h>");
    emitter.header_line("int main(void){");
    assert_eq!(emitter.finalize(), "# include <stdio.h>\nint main(void){\n");
    emitter.emit_line("return 0;");
    emitter.header_line("float a;");
    emitter.emit_line("}");
    assert_eq!(
        emitter.finalize(),
        "# include <stdio.h>\nint main(void){\nfloat a;\nreturn 0;\n}\n"
    );
}

#[test]
fn prologue_comes_before_the_body() {
    let mut emitter = Emitter::new("out.c".to_string());
    emitter.emit("body;");
    emitter.header_line("prologue;");
    emitter.emit("more;");
    assert_eq!(emitter.finalize(), "prologue;\nbody;more;");
    assert_eq!(emitter.finalize(), "prologue;\nbody;more;");
    assert_eq!(emitter.file_path(), "out.c");
}
