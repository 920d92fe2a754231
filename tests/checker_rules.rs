use vixc::ast::{EnumDef, Expr, ExternDecl, Function, ImplBlock, ImportDecl, ParamModifier, Program, Stmt, StructDef, StructField};
use vixc::borrow::BorrowTracker;
use vixc::typecheck::{make_location, type_to_string, types_compatible, TypeChecker};
use vixc::types::Type;

fn func(name: &str, params: Vec<(String, Type, ParamModifier)>, body: Vec<Stmt>) -> Function {
    Function { name: name.to_string(), params, return_type: Type::Void, body, is_public: false }
}

fn run(functions: Vec<Function>, structs: Vec<StructDef>) -> (bool, Vec<String>) {
    let mut c = TypeChecker::new(String::new());
    let program = Program { functions };
    let ok = c.check_program(&program, &structs, &Vec::<EnumDef>::new(), &Vec::<ExternDecl>::new(), &Vec::<ImplBlock>::new(), &Vec::<ImportDecl>::new());
    let codes = c.handler.diagnostics().iter().map(|d| d.code.clone()).collect();
    (ok, codes)
}

fn decl(name: &str, ty: Type, value: Expr) -> Stmt {
    Stmt::TypedDeclaration { name: name.to_string(), ty, value, is_mutable: false }
}

#[test]
fn void_variable_is_rejected() {
    let main = func("main", vec![], vec![decl("v", Type::Void, Expr::Number(0))]);
    let (ok, codes) = run(vec![main], vec![]);
    assert!(!ok);
    assert!(codes.contains(&"E0001".to_string()));
}

#[test]
fn void_in_tuple_or_field_is_rejected() {
    let t = Type::Tuple { fields: vec![Type::i32(), Type::Void] };
    let main = func("main", vec![], vec![Stmt::Scope(vec![decl("t", t, Expr::Tuple(vec![]))])]);
    let (ok, _) = run(vec![main], vec![]);
    assert!(!ok);
    let s = StructDef {
        name: "S".to_string(),
        fields: vec![StructField { name: "f".to_string(), ty: Type::Void, is_public: true, is_mutable: false }],
        is_public: true,
    };
    let (ok2, codes) = run(vec![], vec![s]);
    assert!(!ok2);
    assert_eq!(codes, vec!["E0001".to_string()]);
}

#[test]
fn wrong_argument_count() {
    let g = func("g", vec![("x".to_string(), Type::i32(), ParamModifier::Immutable)], vec![]);
    let main = func("main", vec![], vec![Stmt::Call("g".to_string(), vec![Expr::Number(1), Expr::Number(2)])]);
    let mut c = TypeChecker::new(String::new());
    let program = Program { functions: vec![g, main] };
    let ok = c.check_program(&program, &vec![], &vec![], &vec![], &vec![], &vec![]);
    assert!(!ok);
    let d = &c.handler.diagnostics()[0];
    assert_eq!(d.code, "E0061");
    assert_eq!(d.message, "Function 'g' expects 1 arguments, got 2");
}

#[test]
fn same_binding_borrowed_mutably_twice() {
    let h = func(
        "h",
        vec![
            ("a".to_string(), Type::i32(), ParamModifier::MutableReference),
            ("b".to_string(), Type::i32(), ParamModifier::MutableReference),
        ],
        vec![],
    );
    let main = func(
        "main",
        vec![],
        vec![
            Stmt::TypedDeclaration { name: "x".to_string(), ty: Type::i32(), value: Expr::Number(1), is_mutable: true },
            Stmt::Call("h".to_string(), vec![Expr::Var("x".to_string()), Expr::Var("x".to_string())]),
        ],
    );
    let mut c = TypeChecker::new(String::new());
    let ok = c.check_program(&Program { functions: vec![h, main] }, &vec![], &vec![], &vec![], &vec![], &vec![]);
    assert!(!ok);
    let d = c.handler.diagnostics().iter().find(|d| d.code == "E0502").unwrap();
    assert_eq!(d.context.secondary_locations.len(), 1);
    assert_eq!(d.context.secondary_locations[0].1, "first borrow of 'x' occurs here");
}

#[test]
fn variable_unreachable_after_scope() {
    let main = func(
        "main",
        vec![],
        vec![
            Stmt::Scope(vec![decl("inner", Type::i32(), Expr::Number(1))]),
            Stmt::Assign("inner".to_string(), Expr::Number(2)),
        ],
    );
    let (ok, codes) = run(vec![main], vec![]);
    assert!(!ok);
    assert_eq!(codes, vec!["E0425".to_string()]);
}

#[test]
fn clean_program_passes() {
    let main = func(
        "main",
        vec![],
        vec![
            decl("a", Type::i32(), Expr::Number(3)),
            Stmt::If(Expr::BinOp("<".to_string(), Box::new(Expr::Var("a".to_string())), Box::new(Expr::Number(4))), vec![], None),
            Stmt::Call("print".to_string(), vec![Expr::String("hi".to_string()), Expr::Var("a".to_string())]),
        ],
    );
    let (ok, codes) = run(vec![main], vec![]);
    assert!(ok, "{:?}", codes);
}

#[test]
fn mismatches_are_reported() {
    let main = func(
        "main",
        vec![],
        vec![
            decl("a", Type::Bool, Expr::Number(3)),
            Stmt::While(Expr::Number(1), vec![]),
            Stmt::For("i".to_string(), Expr::Number(5), vec![]),
        ],
    );
    let (ok, codes) = run(vec![main], vec![]);
    assert!(!ok);
    assert_eq!(codes, vec!["E0308".to_string(), "E0308".to_string(), "E0277".to_string()]);
}

#[test]
fn builtin_name_conflict() {
    let p = func("print", vec![], vec![]);
    let (ok, codes) = run(vec![p], vec![]);
    assert!(!ok);
    assert_eq!(codes, vec!["E0428".to_string()]);
}

#[test]
fn compatibility_rules() {
    assert!(types_compatible(&Type::Any, &Type::i32()));
    assert!(types_compatible(&Type::ConstStr, &Type::Str { len_type: Box::new(Type::i64()) }));
    assert!(types_compatible(&Type::i32().make_const(), &Type::i32()));
    assert!(!types_compatible(&Type::i32(), &Type::i64()));
    assert!(types_compatible(&Type::Ptr(Box::new(Type::i8())), &Type::Ptr(Box::new(Type::i8()))));
    assert!(!types_compatible(&Type::Ref(Box::new(Type::i8())), &Type::MutRef(Box::new(Type::i8()))));
    assert!(!types_compatible(&Type::Tuple { fields: vec![Type::i32()] }, &Type::Tuple { fields: vec![Type::i32(), Type::i32()] }));
}

#[test]
fn message_forms_of_types() {
    assert_eq!(type_to_string(&Type::Array { element: Box::new(Type::i32()), size: Some(3) }), "[int32; 3]");
    assert_eq!(type_to_string(&Type::Union { variants: vec![Type::i32(), Type::Bool] }), "int32 | bool");
    assert_eq!(type_to_string(&Type::float32()), "float32");
}

#[test]
fn borrow_tracker_conflicts() {
    let mut t = BorrowTracker::new();
    assert!(t.add_immutable_borrow("x".to_string(), make_location(1, 1, 1)).is_none());
    assert!(t.add_immutable_borrow("x".to_string(), make_location(2, 1, 1)).is_none());
    let c = t.add_mutable_borrow("x".to_string(), make_location(3, 1, 1)).unwrap();
    assert_eq!(c.line, 1);
    assert!(t.add_mutable_borrow("y".to_string(), make_location(4, 1, 1)).is_none());
    let d = t.add_mutable_borrow("y".to_string(), make_location(5, 1, 1)).unwrap();
    assert_eq!(d.line, 4);
    let e = t.add_immutable_borrow("y".to_string(), make_location(6, 1, 1)).unwrap();
    assert_eq!(e.line, 4);
    t.clear();
    assert!(t.add_mutable_borrow("y".to_string(), make_location(7, 1, 1)).is_none());
}
