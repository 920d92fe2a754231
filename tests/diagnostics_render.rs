use vixc::diagnostics::{
    borrow_conflict_error, default_location, dereference_void_error, lines_of, return_type_mismatch_error, type_mismatch_error,
    undefined_function_error, undefined_variable_error, void_array_error, void_operation_error, void_variable_error, Diagnostic,
    DiagnosticHandler, DiagnosticLevel, SourceLocation,
};
use vixc::ir::IR;

fn loc(line: usize, column: usize, length: usize) -> SourceLocation {
    SourceLocation { file: "input".to_string(), line, column, length }
}

#[test]
fn lines_follow_str_lines() {
    let src = "a\r\nbb\n\nccc\n";
    assert_eq!(lines_of(src), src.lines().map(|l| l.to_string()).collect::<Vec<_>>());
    assert_eq!(lines_of("x"), vec!["x"]);
    assert!(lines_of("").is_empty());
}

#[test]
fn error_rendering() {
    let d = Diagnostic::error("E0425", "Cannot find variable 'q' in this scope", undefined_variable_error("q", loc(2, 3, 1)));
    let out = d.display("let a = 1\nprint(q)\n");
    assert!(out.starts_with("[Error]: E0425 Error:\n   | input:2\n   |\n"), "{}", out);
    assert!(out.contains(" 1 | let a = 1\n"));
    assert!(out.contains(" 2 |> print(q)\n   |   ^ Cannot find variable 'q' in this scope\n"), "{}", out);
    assert!(out.contains("   |-> help:\n    Variable 'q' is not defined in the current scope.\n"));
    assert!(out.contains("   |-> suggestions:\n    - Declare variable 'q' before using it\n"));
}

#[test]
fn warning_rendering_with_secondary() {
    let ctx = borrow_conflict_error("x", loc(2, 1, 1), loc(1, 5, 2));
    let d = Diagnostic::warning("W1", "overlap", ctx);
    assert_eq!(d.level, DiagnosticLevel::Warning);
    let out = d.display("fn f(x)\nh(x, x)");
    assert!(out.starts_with("[Warning]: W1 Warning:\n"));
    assert!(out.contains(" 1 |> fn f(x)\n   |     ^^ first borrow of 'x' occurs here\n"), "{}", out);
}

#[test]
fn handler_counts_and_budget() {
    let mut h = DiagnosticHandler::new(String::new());
    assert!(!h.has_errors());
    assert!(h.should_continue());
    assert_eq!(h.summary(), None);
    h.warning("W", "w", void_array_error(loc(1, 1, 1)));
    assert!(!h.has_errors());
    for _ in 0..100 {
        h.error("E", "e", dereference_void_error(loc(1, 1, 1)));
    }
    assert!(h.has_errors());
    assert!(!h.should_continue());
    assert_eq!(h.summary().unwrap(), "Compilation finished with 100 error(s) and 1 warning(s).");
    assert_eq!(h.diagnostics().len(), 101);
}

#[test]
fn context_texts() {
    let t = type_mismatch_error("int32", "bool", loc(1, 1, 1), loc(2, 2, 2));
    assert_eq!(t.secondary_locations[0].1, "sending bool to int32");
    assert_eq!(t.suggestions, vec!["Change parameter type to Option<int32>", "Convert bool to int32 explicitly"]);
    let r = return_type_mismatch_error("int32", "void", loc(1, 1, 1), loc(1, 1, 1));
    assert_eq!(r.help_message.unwrap(), "Returning void to int32.\n    The function signature specifies return type 'int32', but found 'void'.");
    let o = void_operation_error("+", loc(1, 1, 1));
    assert!(o.help_message.unwrap().starts_with("Cannot perform operation '+' on void type."));
    let v = void_variable_error("v", loc(1, 1, 1));
    assert_eq!(v.suggestions[0], "Change 'v' to a concrete type");
    let f = undefined_function_error("g", 2, loc(1, 1, 1));
    assert!(f.help_message.unwrap().starts_with("Function 'g' with 2 argument(s) is not defined."));
    let d = default_location();
    assert_eq!((d.file.as_str(), d.line, d.column, d.length), ("<unknown>", 0, 0, 1));
}

#[test]
fn ir_sections_in_order() {
    let mut ir = IR::new();
    ir.add_forward_decl("int f(void);".to_string());
    ir.add_function("int f(void) { return 1; }".to_string());
    ir.add_RuntimeFunction("helper", "void helper(void) {}".to_string());
    ir.add_RuntimeFunction("helper", "void helper(void) {}".to_string());
    let out = ir.finalize();
    assert_eq!(
        out,
        "#include <stdio.h>\n#include <stdlib.h>\n#include <stdint.h>\n#include <stdbool.h>\n#include <string.h>\n#include <time.h>\nint f(void);\n\nint f(void) { return 1; }\n\nvoid helper(void) {}\n\n"
    );
}
