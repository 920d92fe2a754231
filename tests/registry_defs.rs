use vixc::config::ArchConfig;
use vixc::registry::TypeRegistry;
use vixc::types::Type;

#[test]
fn definition_handed_out_once() {
    let arch = ArchConfig::x86_64();
    let mut reg = TypeRegistry::new();
    let t = Type::option(Type::i32());
    let first = reg.generate_type_definition(&t, &arch);
    assert_eq!(
        first.as_deref(),
        Some("typedef struct {\n    uint8_t tag;\n    int32_t value;\n} Option_int32;\n")
    );
    assert_eq!(reg.generate_type_definition(&t, &arch), None);
    assert_eq!(reg.generate_type_definition(&Type::option(Type::i32()), &arch), None);
}

#[test]
fn void_payload_is_a_byte() {
    let arch = ArchConfig::x86_64();
    let mut reg = TypeRegistry::new();
    let r = reg.generate_result_definition(&Type::Void, &Type::i32(), &arch);
    assert_eq!(
        r.as_deref(),
        Some("typedef struct {\n    uint8_t tag;\n    union {\n        uint8_t ok;\n        int32_t err;\n    } data;\n} Result_void_int32;\n")
    );
}

#[test]
fn tuple_definition_numbers_fields() {
    let arch = ArchConfig::x86_64();
    let mut reg = TypeRegistry::new();
    let r = reg.generate_tuple_definition(&vec![Type::i32(), Type::Bool], &arch);
    assert_eq!(
        r.as_deref(),
        Some("typedef struct {\n    int32_t field_0;\n    bool field_1;\n} Tuple_int32_bool;\n")
    );
    assert_eq!(reg.generate_tuple_definition(&vec![Type::i32(), Type::Bool], &arch), None);
}

#[test]
fn union_definition_has_tag() {
    let arch = ArchConfig::x86_64();
    let mut reg = TypeRegistry::new();
    let u = Type::Union { variants: vec![Type::i32(), Type::Bool] };
    let r = reg.generate_type_definition(&u, &arch);
    assert_eq!(
        r.as_deref(),
        Some("typedef struct {\n    uint8_t tag;\n    union {\n        int32_t variant_0;\n        bool variant_1;\n    } data;\n} Union_int32_bool;\n")
    );
}

#[test]
fn non_compound_types_get_nothing() {
    let arch = ArchConfig::x86_64();
    let mut reg = TypeRegistry::new();
    assert_eq!(reg.generate_type_definition(&Type::i32(), &arch), None);
    assert_eq!(reg.generate_type_definition(&Type::Struct { name: "P".to_string() }, &arch), None);
}

#[test]
fn enum_definition_layout() {
    let arch = ArchConfig::x86_64();
    let mut reg = TypeRegistry::new();
    reg.register_enum(
        "E".to_string(),
        vec![
            ("A".to_string(), None),
            ("B".to_string(), Some(Type::Tuple { fields: vec![Type::i32()] })),
            ("C".to_string(), Some(Type::Struct { name: "E_C_Payload".to_string() })),
        ],
        false,
    );
    let def = reg.generate_enum_definition("E", &arch).unwrap();
    assert_eq!(
        def,
        "typedef enum {\n    E__A = 0,\n    E__B = 1,\n    E__C = 2,\n} E_Tag;\n\ntypedef struct {\n    E_Tag tag;\n    union {\n        Tuple_int32 B;\n        E_C_Payload C;\n    } data;\n} E;\n"
    );
    assert_eq!(reg.generate_enum_definition("F", &arch), None);
}

#[test]
fn struct_size_rounds_fields_to_bytes() {
    let arch = ArchConfig::x86_64();
    let mut reg = TypeRegistry::new();
    reg.register_struct("P".to_string(), vec![("x".to_string(), Type::i32()), ("f".to_string(), Type::Bool), ("b".to_string(), Type::integer(3, false))]);
    assert_eq!(reg.get_struct_size("P", &arch), Some(4 + 1 + 1));
    assert_eq!(reg.get_struct_size("Q", &arch), None);
    reg.register_struct("P".to_string(), vec![("y".to_string(), Type::i64())]);
    assert_eq!(reg.get_struct_size("P", &arch), Some(8));
}
