use vixc::ast::{Expr, ImplBlock, ImplMethod};
use vixc::config::ArchConfig;
use vixc::emitter::{Codegen, CodegenResult};
use vixc::types::Type;

fn gen() -> Codegen {
    Codegen::new(ArchConfig::x86_64(), String::new(), "ops.vix".to_string())
}

#[test]
fn binop_forms() {
    let mut g = gen();
    let mut body = String::new();
    let r = g.binop_of(&"<".to_string(), "a".to_string(), Type::i32(), "b".to_string(), Type::i32(), &mut body).unwrap();
    assert_eq!(r.0, "t0");
    assert_eq!(r.1.name(), "bool");
    assert_eq!(body, "bool t0 = a < b;\n");
    let mut b2 = String::new();
    let s = g.binop_of(&"+".to_string(), "x".to_string(), Type::ConstStr, "y".to_string(), Type::Str { len_type: Box::new(Type::i64()) }, &mut b2).unwrap();
    assert_eq!(s.1.name(), "str");
    assert_eq!(b2, "String t1 = string_from_const(x);\nString t2 = string_concat(t1, y);\n");
    let mut b3 = String::new();
    assert!(g.binop_of(&"+".to_string(), "x".to_string(), Type::Void, "y".to_string(), Type::i32(), &mut b3).is_err());
    assert!(g.binop_of(&"+".to_string(), "x".to_string(), Type::Bool, "y".to_string(), Type::Bool, &mut b3).is_err());
    assert!(b3.is_empty());
    assert_eq!(g.diagnostics.diagnostics()[0].code, "VoidOperand");
    assert_eq!(g.diagnostics.diagnostics()[1].code, "IncompatibleTypes");
}

#[test]
fn operator_type_rules() {
    let g = gen();
    assert!(g.binop_types_compatible(&Type::i32(), &Type::i64(), &"+".to_string()));
    assert!(!g.binop_types_compatible(&Type::Bool, &Type::Bool, &"+".to_string()));
    assert!(g.binop_types_compatible(&Type::Bool, &Type::Bool, &"&&".to_string()));
    assert!(!g.binop_types_compatible(&Type::float32(), &Type::float32(), &"<<".to_string()));
    assert!(g.binop_types_compatible_str(&Type::ConstStr, &Type::ConstStr, &"+".to_string()));
    assert!(!g.binop_types_compatible_str(&Type::ConstStr, &Type::ConstStr, &"-".to_string()));
    assert!(g.binop_types_compatible_str(&Type::char8(), &Type::char32(), &"==".to_string()));
}

#[test]
fn emitter_compatibility() {
    let g = gen();
    let arr = |n| Type::Array { element: Box::new(Type::i32()), size: Some(n) };
    assert!(g.types_compatible(&arr(3), &arr(3)));
    assert!(!g.types_compatible(&arr(3), &arr(4)));
    assert!(g.types_compatible(&Type::char8(), &Type::char32()));
    assert!(!g.types_compatible(&Type::Any, &Type::i32()));
    assert!(g.types_compatible(&Type::i32().make_const(), &Type::i32()));
}

#[test]
fn type_reference_number() {
    let mut g = gen();
    let mut body = String::new();
    let r = g.codegen_reference_to(&Type::Bool, &mut body).unwrap();
    let expected = "bool".bytes().fold(0u32, |acc, b| acc.wrapping_mul(31).wrapping_add(b as u32));
    assert_eq!(body, format!("uint32_t t0 = {};\n", expected));
    assert_eq!(r.1.name(), "uint32");
    let mut b2 = String::new();
    let long = Type::Tuple { fields: vec![Type::i64(), Type::option(Type::u16()), Type::Bool] };
    g.codegen_reference_to(&long, &mut b2).unwrap();
    let h = long.name().bytes().fold(0u32, |acc, b| acc.wrapping_mul(31).wrapping_add(b as u32));
    assert_eq!(b2, format!("uint32_t t1 = {};\n", h));
}

#[test]
fn named_call_and_sizes() {
    let mut g = gen();
    let mut body = String::new();
    let e = Expr::CallNamed("f".to_string(), vec![("b".to_string(), Expr::Number(2)), ("a".to_string(), Expr::Number(1))]);
    let r = g.codegen_expr(&e, &mut body).unwrap();
    assert_eq!(r.1.name(), "int32");
    assert!(body.ends_with("int32_t t2 = f(t0, t1);\n"), "{}", body);
    let mut b2 = String::new();
    g.codegen_expr(&Expr::SizeOf(Type::i64()), &mut b2).unwrap();
    assert_eq!(b2, "size_t t3 = sizeof(int64_t);\n");
    let d = CodegenResult::default();
    assert_eq!(d.0, "_error_");
    let (n, t) = Codegen::error_value();
    assert_eq!(n, "_error_");
    assert!(t.is_void());
}

#[test]
fn none_and_not() {
    let mut g = gen();
    let mut body = String::new();
    let r = g.codegen_none(None, &mut body).unwrap();
    assert_eq!(body, "Option_void t0 = { .tag = 0 };\n");
    assert_eq!(r.1.name(), "Option<void>");
    let mut b2 = String::new();
    let n = g.codegen_expr(&Expr::Not(Box::new(Expr::Bool(true))), &mut b2).unwrap();
    assert_eq!(n.1.name(), "bool");
    assert_eq!(b2, "bool t1 = true;\nbool t2 = !t1;\n");
    assert!(g.ir.forward_decls.contains("} Option_void;"));
}

#[test]
fn void_declaration_records_nothing() {
    let mut g = gen();
    let mut body = String::new();
    let ty = Type::Tuple { fields: vec![Type::i32(), Type::Void] };
    let r = g.codegen_typed_declaration(&"t".to_string(), &ty, &Expr::Number(1), false, &mut body);
    assert!(r.is_err());
    assert!(g.vars.is_empty());
    assert!(body.is_empty());
    assert!(g.diagnostics.has_errors());
}

#[test]
fn unknown_struct_in_impl_block() {
    let mut g = gen();
    let m = ImplMethod { name: "f".to_string(), params: vec![], return_type: Type::Void, body: vec![], self_modifier: None };
    let block = ImplBlock { struct_name: "Nope".to_string(), methods: vec![m] };
    g.codegen_impl_block(&block, true).unwrap();
    assert_eq!(g.diagnostics.diagnostics()[0].code, "E0412");
    assert_eq!(g.impl_methods.len(), 1);
    assert_eq!(g.impl_methods[0].0, "Nope.f");
}
