use vixc::ast::{EnumDef, EnumVariant, Expr, Function, ParamModifier, Program, Stmt, StructDef, StructField};
use vixc::config::ArchConfig;
use vixc::definitions::LibrarySignature;
use vixc::emitter::Codegen;
use vixc::types::Type;

fn gen() -> Codegen {
    Codegen::new(ArchConfig::x86_64(), String::new(), "main.vix".to_string())
}

fn call(name: &str, args: Vec<Expr>) -> Expr {
    Expr::Call(name.to_string(), args)
}

fn main_fn(body: Vec<Stmt>) -> Function {
    Function { name: "main".to_string(), params: vec![], return_type: Type::Void, body, is_public: false }
}

fn emit_program(functions: Vec<Function>, structs: Vec<StructDef>, enums: Vec<EnumDef>) -> String {
    let mut g = gen();
    let program = Program { functions };
    g.codegen_program_full(&program, &structs, &enums, &vec![], &vec![], &vec![], &Vec::<LibrarySignature>::new()).unwrap()
}

#[test]
fn print_builds_format_from_types() {
    let out = emit_program(vec![main_fn(vec![Stmt::Call("print".to_string(), vec![Expr::String("hi".to_string()), Expr::Number(7)])])], vec![], vec![]);
    assert!(out.contains("printf(\"%s %d\\n\", t0.ptr, t1);"), "{}", out);
    assert!(out.contains("void vix_main()"));
    assert!(out.contains("int main() {\n    vix_main();\n    return 0;\n}\n"));
}

#[test]
fn struct_constructor_is_generated() {
    let p = StructDef {
        name: "P".to_string(),
        fields: vec![
            StructField { name: "x".to_string(), ty: Type::i32(), is_public: true, is_mutable: false },
            StructField { name: "y".to_string(), ty: Type::i32(), is_public: true, is_mutable: false },
        ],
        is_public: true,
    };
    let body = vec![
        Stmt::TypedDeclaration { name: "p".to_string(), ty: Type::Struct { name: "P".to_string() }, value: call("P", vec![Expr::Number(3), Expr::Number(4)]), is_mutable: false },
        Stmt::Call(
            "print".to_string(),
            vec![Expr::BinOp(
                "+".to_string(),
                Box::new(Expr::MemberAccess(Box::new(Expr::Var("p".to_string())), "x".to_string())),
                Box::new(Expr::MemberAccess(Box::new(Expr::Var("p".to_string())), "y".to_string())),
            )],
        ),
    ];
    let out = emit_program(vec![main_fn(body)], vec![p], vec![]);
    assert!(out.contains("P P_new(int32_t x, int32_t y);\n"), "{}", out);
    assert!(out.contains("P P_new(int32_t x, int32_t y) {\n    P instance;\n    instance.x = x;\n    instance.y = y;\n    return instance;\n}\n"));
    assert!(out.contains("P t2 = P_new(t0, t1);"), "{}", out);
}

#[test]
fn option_round_trip_code() {
    let f = Function {
        name: "f".to_string(),
        params: vec![],
        return_type: Type::option(Type::i32()),
        body: vec![Stmt::Return(Some(call("some", vec![Expr::Number(5)])))],
        is_public: false,
    };
    let m = main_fn(vec![Stmt::Call("print".to_string(), vec![call("unwrap", vec![call("f", vec![])])])]);
    let out = emit_program(vec![f, m], vec![], vec![]);
    assert!(out.contains("typedef struct {\n    uint8_t tag;\n    int32_t value;\n} Option_int32;"), "{}", out);
    assert!(out.contains("Option_int32 t1 = { .tag = 1, .value = t0 };"), "{}", out);
    assert!(out.contains(".tag == 0) {\n    fprintf(stderr, \"unwrap called on None\\n\");\n    exit(1);\n}\n"));
    let sig = out.find("Option_int32 f();").unwrap();
    let body = out.find("Option_int32 f() {").unwrap();
    assert!(sig < body);
}

#[test]
fn result_unwrap_exits_on_error() {
    let mut g = gen();
    let mut body = String::new();
    let ok = g.codegen_expr(&call("unwrap", vec![call("ok", vec![Expr::Number(1)])]), &mut body).unwrap();
    assert_eq!(ok.1.name(), "int32");
    assert!(body.contains("= { .tag = 0, .data.ok = t0 };"), "{}", body);
    assert!(body.contains(".tag != 0) {\n    fprintf(stderr, \"unwrap called on Err\\n\");\n    exit(1);\n}\n"));
    let mut body2 = String::new();
    let _ = g.codegen_expr(&call("err", vec![Expr::Number(2)]), &mut body2).unwrap();
    assert!(body2.contains(".tag = 1, .data.err = "), "{}", body2);
}

#[test]
fn fresh_names_never_repeat() {
    let mut g = gen();
    let a = g.fresh_var();
    let b = g.fresh_var();
    let l1 = g.fresh_label();
    let l2 = g.fresh_label();
    assert_eq!((a.as_str(), b.as_str()), ("t0", "t1"));
    assert_eq!((l1.as_str(), l2.as_str()), ("label_0", "label_1"));
    let mut names = std::collections::HashSet::new();
    for _ in 0..200 {
        assert!(names.insert(g.fresh_var()));
    }
    assert_eq!(g.error_var(), "t202_error");
}

#[test]
fn owned_variable_released_once() {
    let mut g = gen();
    let mut body = String::new();
    let stmts = vec![Stmt::TypedDeclaration {
        name: "buf".to_string(),
        ty: Type::Owned(Box::new(Type::i32())),
        value: Expr::Number(0),
        is_mutable: true,
    }];
    g.codegen_scope(&stmts, &mut body).unwrap();
    assert_eq!(body.matches("free(var_buf);").count(), 1);
    assert!(body.ends_with("free(var_buf);\n}\n"));
    assert!(g.owned_vars.is_empty());
    assert!(g.vars.is_empty());
}

#[test]
fn literal_forms() {
    let mut g = gen();
    let mut body = String::new();
    g.codegen_number(-5, &mut body);
    g.codegen_hex_number(255, &mut body);
    g.codegen_binary_number(5, &mut body);
    g.codegen_octal_number(8, &mut body);
    g.codegen_bool(true, &mut body);
    g.codegen_char(65, &mut body);
    g.codegen_float("2.5", &mut body);
    g.codegen_string("a\"b\n", &mut body);
    assert_eq!(
        body,
        "int32_t t0 = -5;\nint32_t t1 = 0xff;\nint32_t t2 = 0b101;\nint32_t t3 = 010;\nbool t4 = true;\nchar t5 = 65;\nfloat t6 = 2.5;\nString t7 = { .ptr = \"a\\\"b\\n\", .len = 4 };\n"
    );
    let mut b2 = String::new();
    g.codegen_hex_number(-1, &mut b2);
    assert!(b2.ends_with("= 0xffffffff;\n"));
    let mut b3 = String::new();
    g.codegen_break(&mut b3).unwrap();
    g.codegen_continue(&mut b3).unwrap();
    assert_eq!(b3, "break;\ncontinue;\n");
}

#[test]
fn enum_tag_and_union() {
    let e = EnumDef {
        name: "E".to_string(),
        variants: vec![
            EnumVariant::Simple("A".to_string()),
            EnumVariant::Tuple("B".to_string(), vec![Type::i32()]),
            EnumVariant::Struct("C".to_string(), vec![StructField { name: "x".to_string(), ty: Type::i32(), is_public: true, is_mutable: false }]),
        ],
        is_public: false,
    };
    let out = emit_program(vec![main_fn(vec![])], vec![], vec![e]);
    assert!(out.contains("    E__A = 0,\n    E__B = 1,\n    E__C = 2,\n} E_Tag;"), "{}", out);
    assert!(out.contains("typedef struct E_C_Payload {\n    int32_t x;\n} E_C_Payload;"));
    assert!(out.contains("        E_C_Payload C;\n"));
}

#[test]
fn signatures_come_before_bodies() {
    let g1 = Function {
        name: "helper".to_string(),
        params: vec![("n".to_string(), Type::i32(), ParamModifier::Immutable)],
        return_type: Type::i32(),
        body: vec![Stmt::Return(Some(Expr::Var("n".to_string())))],
        is_public: false,
    };
    let m = main_fn(vec![Stmt::Expr(call("helper", vec![Expr::Number(1)]))]);
    let out = emit_program(vec![m, g1], vec![], vec![]);
    let sig = out.find("int32_t helper(int32_t var_n);").unwrap();
    let use_site = out.find("= helper(t0);").unwrap();
    assert!(sig < use_site);
    assert!(out.starts_with("#include <stdio.h>\n#include <stdlib.h>\n#include <stdint.h>\n#include <stdbool.h>\n#include <string.h>\n#include <time.h>\n"));
}

#[test]
fn undefined_variable_fails_emission() {
    let mut g = gen();
    let program = Program { functions: vec![main_fn(vec![Stmt::Expr(Expr::Var("nope".to_string()))])] };
    let r = g.codegen_program_full(&program, &vec![], &vec![], &vec![], &vec![], &vec![], &vec![]);
    assert!(r.is_err());
    assert!(g.diagnostics.has_errors());
    assert!(g.finalize().is_err());
}

#[test]
fn location_from_offset() {
    let g = Codegen::new(ArchConfig::x86_64(), "ab\ncd\nef".to_string(), "f.vix".to_string());
    let l = g.make_location(4, 0);
    assert_eq!((l.line, l.column, l.length), (2, 2, 1));
    let d = g.default_location();
    assert_eq!((d.line, d.column, d.length), (0, 0, 1));
    assert_eq!(d.file, "f.vix");
}
