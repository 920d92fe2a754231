use vixc::config::ArchConfig;
use vixc::registry::TypeRegistry;
use vixc::types::Type;

fn tuple(fields: Vec<Type>) -> Type {
    Type::Tuple { fields }
}

#[test]
fn option_size_adds_tag() {
    let arch = ArchConfig::x86_64();
    let t = Type::option(Type::i32());
    assert_eq!(t.size_bits(&arch), 40);
    assert_eq!(Type::i32().size_bits(&arch), 32);
}

#[test]
fn tuple_size_is_sum() {
    let arch = ArchConfig::x86_64();
    let t = tuple(vec![Type::i32(), Type::Bool, Type::i64()]);
    assert_eq!(t.size_bits(&arch), 32 + 8 + 64);
    assert_eq!(tuple(vec![]).size_bits(&arch), 0);
}

#[test]
fn result_size_takes_larger_side() {
    let arch = ArchConfig::x86_64();
    let t = Type::result(Type::i32(), Type::i64());
    assert_eq!(t.size_bits(&arch), 72);
    let u = Type::result(Type::Void, Type::i8());
    assert_eq!(u.size_bits(&arch), 16);
}

#[test]
fn union_size_uses_tag_width() {
    let arch = ArchConfig::x86_64();
    let u = Type::Union { variants: vec![Type::i32(), Type::i64()] };
    assert_eq!(u.size_bits(&arch), 8 + 64);
}

#[test]
fn pointer_sizes_follow_target() {
    assert_eq!(Type::Ptr(Box::new(Type::i8())).size_bits(&ArchConfig::x86_64()), 64);
    assert_eq!(Type::Ptr(Box::new(Type::i8())).size_bits(&ArchConfig::x86()), 32);
    assert_eq!(Type::Array { element: Box::new(Type::i32()), size: None }.size_bits(&ArchConfig::x86()), 64);
    assert_eq!(Type::Array { element: Box::new(Type::i32()), size: Some(4) }.size_bits(&ArchConfig::arm64()), 128);
    let m = Type::MultiArray { element: Box::new(Type::i8()), dimensions: vec![2, 3] };
    assert_eq!(m.size_bits(&ArchConfig::x86_64()), 48);
}

#[test]
fn alignment_of_compounds_is_max_of_components() {
    let arch = ArchConfig::x86_64();
    let t = tuple(vec![Type::i8(), Type::i64(), Type::i16()]);
    assert_eq!(t.alignment(&arch), 8);
    assert_eq!(tuple(vec![]).alignment(&arch), 1);
    assert_eq!(Type::Void.alignment(&arch), 1);
    assert_eq!(Type::option(Type::i16()).alignment(&arch), 2);
    assert_eq!(Type::result(Type::i8(), Type::i32()).alignment(&arch), 4);
    assert_eq!(Type::option(Type::Void).alignment(&arch), 1);
}

#[test]
fn alignment_steps() {
    let arch = ArchConfig::x86_64();
    assert_eq!(arch.alignment_for_bits(1), 1);
    assert_eq!(arch.alignment_for_bits(8), 1);
    assert_eq!(arch.alignment_for_bits(9), 2);
    assert_eq!(arch.alignment_for_bits(32), 4);
    assert_eq!(arch.alignment_for_bits(64), 8);
    assert_eq!(arch.alignment_for_bits(65), 16);
    assert_eq!(arch.alignment_for_bits(0), 16);
}

#[test]
fn tag_widths() {
    let arch = ArchConfig::x86();
    assert_eq!(arch.tag_bits_for_variants(0), 8);
    assert_eq!(arch.tag_bits_for_variants(256), 8);
    assert_eq!(arch.tag_bits_for_variants(257), 16);
    assert_eq!(arch.tag_bits_for_variants(65536), 16);
    assert_eq!(arch.tag_bits_for_variants(65537), 32);
}

#[test]
fn presets() {
    let a = ArchConfig::x86_64();
    assert_eq!((a.pointer_bits, a.pointer_align, a.int_bits, a.long_bits), (64, 8, 32, 64));
    assert_eq!(a.target, "x86_64");
    let b = ArchConfig::x86();
    assert_eq!((b.pointer_bits, b.pointer_align, b.long_bits), (32, 4, 32));
    assert_eq!(ArchConfig::arm64().target, "aarch64");
}

#[test]
fn structural_names() {
    assert_eq!(Type::option(Type::i32()).name(), "Option<int32>");
    assert_eq!(Type::result(Type::i32(), Type::Str { len_type: Box::new(Type::i64()) }).name(), "Result<int32, str>");
    assert_eq!(tuple(vec![Type::i32(), Type::Bool]).name(), "(int32, bool)");
    assert_eq!(Type::u8().name(), "uint8");
    assert_eq!(Type::char32().name(), "char32");
    assert_eq!(Type::Char { bits: 16, signed: false }.name(), "char16");
    assert_eq!(Type::MutRef(Box::new(Type::i32())).name(), "&mut int32");
    assert_eq!(Type::Array { element: Box::new(Type::i32()), size: Some(3) }.name(), "int32[3]");
    assert_eq!(Type::MultiArray { element: Box::new(Type::i8()), dimensions: vec![2, 3] }.name(), "int8[2][3]");
    assert_eq!(Type::Union { variants: vec![Type::i32(), Type::Bool] }.name(), "(int32 | bool)");
    assert_eq!(Type::FnPtr { params: vec![Type::i32()], return_type: Box::new(Type::Void) }.name(), "fn(int32) -> void");
}

#[test]
fn c_spellings() {
    let arch = ArchConfig::x86_64();
    assert_eq!(Type::option(Type::i32()).to_c_type(&arch), "Option_int32");
    assert_eq!(tuple(vec![Type::i32(), Type::Bool]).to_c_type(&arch), "Tuple_int32_bool");
    assert_eq!(Type::result(Type::i32(), Type::Str { len_type: Box::new(Type::i64()) }).to_c_type(&arch), "Result_int32_str");
    assert_eq!(Type::Ref(Box::new(Type::i32())).to_c_type(&arch), "int32_t*");
    assert_eq!(Type::Owned(Box::new(Type::u8())).to_c_type(&arch), "uint8_t*");
    assert_eq!(Type::integer(128, true).to_c_type(&arch), "__int128");
    assert_eq!(Type::integer(128, false).to_c_type(&arch), "unsigned __int128");
    assert_eq!(Type::float64().to_c_type(&arch), "double");
    assert_eq!(Type::float(16).to_c_type(&arch), "_Float16");
    assert_eq!(Type::char8().to_c_type(&arch), "char");
    assert_eq!(Type::ConstStr.to_c_type(&arch), "const char*");
    assert_eq!(Type::Array { element: Box::new(Type::i32()), size: None }.to_c_type(&arch), "struct { int32_t* ptr; size_t len; }");
    assert_eq!(Type::i32().make_const().to_c_type(&arch), "const int32_t");
    assert_eq!(Type::FnPtr { params: vec![Type::i32(), Type::Bool], return_type: Box::new(Type::Void) }.to_c_type(&arch), "void (*)(int32_t, bool)");
    assert_eq!(Type::Intersection { types: vec![] }.to_c_type(&arch), "void");
    assert_eq!(Type::u16().c_str(&arch), "uint16_t");
}

#[test]
fn sanitizer_collapses_and_trims() {
    assert_eq!(TypeRegistry::sanitize_type_name("Option<int32>"), "Option_int32");
    assert_eq!(TypeRegistry::sanitize_type_name("(int32, bool)"), "int32_bool");
    assert_eq!(TypeRegistry::sanitize_type_name("__a  b__"), "a_b");
    assert_eq!(TypeRegistry::sanitize_type_name(""), "");
    assert_eq!(TypeRegistry::sanitize_type_name("&mut int32"), "mut_int32");
}

#[test]
fn same_name_same_identifier() {
    let arch = ArchConfig::x86_64();
    let a = Type::option(tuple(vec![Type::i32(), Type::Bool]));
    let b = Type::option(tuple(vec![Type::i32(), Type::Bool]));
    assert_eq!(a.name(), b.name());
    assert_eq!(a.to_c_type(&arch), b.to_c_type(&arch));
}

#[test]
fn const_helpers() {
    let c = Type::i32().make_const();
    assert!(c.is_const());
    assert_eq!(c.unwrap_const().name(), "int32");
    assert_eq!(Type::Bool.unwrap_const().name(), "bool");
    assert!(Type::Void.is_void());
    assert!(Type::Ref(Box::new(Type::i8())).is_ptr());
    assert!(!Type::i8().is_ptr());
    assert_eq!(Type::str_slice(Type::char8(), Type::u64()).to_c_type(&ArchConfig::x86_64()), "struct { char* ptr; uint64_t len; }");
    assert_eq!(Type::float32().name(), "float32");
    assert_eq!(Type::u32().name(), "uint32");
    assert_eq!(Type::u64().name(), "uint64");
    assert_eq!(Type::i16().name(), "int16");
}

#[test]
fn void_gate_on_types() {
    assert!(!Type::Void.is_declarable());
    assert!(!tuple(vec![Type::i32(), Type::Void]).is_declarable());
    assert!(!Type::Array { element: Box::new(Type::Void), size: Some(2) }.is_declarable());
    assert!(!Type::Union { variants: vec![Type::Void] }.is_declarable());
    assert!(Type::option(Type::Void).is_declarable());
    assert!(Type::Ptr(Box::new(Type::Void)).is_declarable());
}
