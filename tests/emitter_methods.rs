use vixc::ast::{Expr, Function, ImplBlock, ImplMethod, ParamModifier, Program, SelfModifier, Stmt, StructDef, StructField};
use vixc::config::ArchConfig;
use vixc::emitter::Codegen;
use vixc::types::Type;

#[test]
fn method_call_passes_object_address() {
    let s = StructDef {
        name: "C".to_string(),
        fields: vec![StructField { name: "n".to_string(), ty: Type::i32(), is_public: true, is_mutable: true }],
        is_public: true,
    };
    let get = ImplMethod {
        name: "get".to_string(),
        params: vec![("k".to_string(), Type::i32(), ParamModifier::Immutable)],
        return_type: Type::i32(),
        body: vec![Stmt::Return(Some(Expr::Var("k".to_string())))],
        self_modifier: Some(SelfModifier::Reference),
    };
    let block = ImplBlock { struct_name: "C".to_string(), methods: vec![get] };
    let main = Function {
        name: "main".to_string(),
        params: vec![],
        return_type: Type::Void,
        body: vec![
            Stmt::TypedDeclaration { name: "c".to_string(), ty: Type::Struct { name: "C".to_string() }, value: Expr::Call("C".to_string(), vec![Expr::Number(1)]), is_mutable: true },
            Stmt::Expr(Expr::MethodCall(Box::new(Expr::Var("c".to_string())), "get".to_string(), vec![Expr::Number(2)])),
        ],
        is_public: false,
    };
    let mut g = Codegen::new(ArchConfig::x86_64(), String::new(), "m.vix".to_string());
    let out = g
        .codegen_program_full(&Program { functions: vec![main] }, &vec![s], &vec![], &vec![block], &vec![], &vec!["#include <math.h>".to_string()], &vec![])
        .unwrap();
    assert!(out.contains("int32_t C_get(C* self, int32_t k);\n"), "{}", out);
    assert!(out.contains("int32_t C_get(C* self, int32_t k) {\n"));
    assert!(out.contains("= C_get(&var_c, t"), "{}", out);
    assert!(out.contains("#include <time.h>\n#include <math.h>\n"));
}
