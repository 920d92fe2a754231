use vstd::prelude::*;
use crate::config::{tag_width, ArchConfig};
use crate::text::{dec, sanitize, sanitized, usize_text};
use crate::types::{
    ctype_ty, ids_joined, lemma_type_views, size_fits, size_ty, type_views,
    Ty, Type,
};

verus! {

/// A struct known to the registry, with its fields in declaration order.
pub struct StructDefinition {
    pub name: String,
    pub fields: Vec<(String, Type)>,
}

/// An enum known to the registry; a variant without a payload has `None`.
pub struct EnumDefinition {
    pub name: String,
    pub variants: Vec<(String, Option<Type>)>,
    pub is_public: bool,
}

/// Memoized store of the C definitions written for compound types, plus the
/// struct and enum declarations of the program.
pub struct TypeRegistry {
    generated_types: Vec<(String, String)>,
    struct_definitions: Vec<StructDefinition>,
    enum_definitions: Vec<EnumDefinition>,
}

/// The registry identifier of a compound type, `None` for the other types.
pub open spec fn type_id(t: Ty) -> Option<Seq<char>> {
    match t {
        Ty::Option { .. } => Some(ctype_ty(t)),
        Ty::Result { .. } => Some(ctype_ty(t)),
        Ty::Tuple { .. } => Some(ctype_ty(t)),
        Ty::Union { .. } => Some(ctype_ty(t)),
        _ => None,
    }
}

/// C spelling of a payload, with a one-byte placeholder standing for void.
pub open spec fn payload_ctype(t: Ty) -> Seq<char> {
    if t is Void {
        "uint8_t"@
    } else {
        ctype_ty(t)
    }
}

/// One line per tuple component: `    T field_i;`.
pub open spec fn field_lines(s: Seq<Ty>) -> Seq<char>
    decreases s.len(),
{
    if s.len() == 0 {
        Seq::empty()
    } else {
        field_lines(s.drop_last()) + "    "@ + ctype_ty(s.last()) + " field_"@ + dec(
            (s.len() - 1) as nat,
        ) + ";\n"@
    }
}

/// One line per union variant: `        T variant_i;`.
pub open spec fn variant_lines(s: Seq<Ty>) -> Seq<char>
    decreases s.len(),
{
    if s.len() == 0 {
        Seq::empty()
    } else {
        variant_lines(s.drop_last()) + "        "@ + ctype_ty(s.last()) + " variant_"@ + dec(
            (s.len() - 1) as nat,
        ) + ";\n"@
    }
}

/// The C integer type that holds the tag of a union of `n` variants.
pub open spec fn tag_ctype(n: int) -> Seq<char> {
    if tag_width(n) == 8 {
        "uint8_t"@
    } else if tag_width(n) == 16 {
        "uint16_t"@
    } else {
        "uint32_t"@
    }
}

/// The C definition written for a compound type.
pub open spec fn definition_text(t: Ty) -> Seq<char> {
    match t {
        Ty::Option { inner } => "typedef struct {\n    uint8_t tag;\n    "@ + payload_ctype(*inner)
            + " value;\n} "@ + ctype_ty(t) + ";\n"@,
        Ty::Result { ok, err } => "typedef struct {\n    uint8_t tag;\n    union {\n        "@
            + payload_ctype(*ok) + " ok;\n        "@ + payload_ctype(*err) + " err;\n    } data;\n} "@
            + ctype_ty(t) + ";\n"@,
        Ty::Tuple { fields } => "typedef struct {\n"@ + field_lines(fields) + "} "@ + ctype_ty(t)
            + ";\n"@,
        Ty::Union { variants } => "typedef struct {\n    "@ + tag_ctype(variants.len() as int)
            + " tag;\n    union {\n"@ + variant_lines(variants) + "    } data;\n} "@ + ctype_ty(t)
            + ";\n"@,
        _ => Seq::empty(),
    }
}

/// Lines `    Name__Variant = i,` for every variant.
pub open spec fn enumerator_lines(name: Seq<char>, vs: Seq<(String, Option<Type>)>) -> Seq<char>
    decreases vs.len(),
{
    if vs.len() == 0 {
        Seq::empty()
    } else {
        enumerator_lines(name, vs.drop_last()) + "    "@ + name + "__"@ + vs.last().0@ + " = "@
            + dec((vs.len() - 1) as nat) + ",\n"@
    }
}

/// Lines `        T Variant;` for every variant that carries a payload.
pub open spec fn payload_lines(vs: Seq<(String, Option<Type>)>) -> Seq<char>
    decreases vs.len(),
{
    if vs.len() == 0 {
        Seq::empty()
    } else {
        payload_lines(vs.drop_last()) + match vs.last().1 {
            Some(t) => "        "@ + ctype_ty(t@) + " "@ + vs.last().0@ + ";\n"@,
            None => Seq::empty(),
        }
    }
}

/// The pair of C definitions written for an enum: the enumerator and the
/// tagged struct.
pub open spec fn enum_text(name: Seq<char>, vs: Seq<(String, Option<Type>)>) -> Seq<char> {
    "typedef enum {\n"@ + enumerator_lines(name, vs) + "} "@ + name + "_Tag;\n\n"@
        + "typedef struct {\n"@ + "    "@ + name + "_Tag tag;\n"@ + "    union {\n"@ + payload_lines(
        vs,
    ) + "    } data;\n} "@ + name + ";\n"@
}

/// Bytes taken by a list of fields, each rounded up to whole bytes.
pub open spec fn fields_bytes(fs: Seq<(String, Type)>, a: ArchConfig) -> nat
    decreases fs.len(),
{
    if fs.len() == 0 {
        0
    } else {
        fields_bytes(fs.drop_last(), a) + (size_ty(fs.last().1@, a) + 7) / 8
    }
}

/// Every field size, and the running byte total, fits in `usize`.
pub open spec fn fields_fit(fs: Seq<(String, Type)>, a: ArchConfig) -> bool {
    &&& forall|i: int| 0 <= i < fs.len() ==> size_fits(#[trigger] fs[i].1@, a)
    &&& forall|i: int| 0 <= i < fs.len() ==> size_ty(#[trigger] fs[i].1@, a) + 7 <= usize::MAX
    &&& fields_bytes(fs, a) <= usize::MAX
}

proof fn lemma_fields_bytes_prefix(fs: Seq<(String, Type)>, a: ArchConfig, i: int)
    requires
        0 <= i <= fs.len(),
    ensures
        fields_bytes(fs.subrange(0, i), a) <= fields_bytes(fs, a),
    decreases fs.len(),
{
    if i == fs.len() {
        assert(fs.subrange(0, i) =~= fs);
    } else {
        lemma_fields_bytes_prefix(fs.drop_last(), a, i);
        assert(fs.drop_last().subrange(0, i) =~= fs.subrange(0, i));
    }
}

impl TypeRegistry {
    /// Identifiers that already have a definition, in the order they were made.
    pub closed spec fn ids(&self) -> Seq<Seq<char>> {
        self.generated_types@.map_values(|p: (String, String)| p.0@)
    }

    /// Definitions handed out, in the same order as `ids`.
    pub closed spec fn defs(&self) -> Seq<Seq<char>> {
        self.generated_types@.map_values(|p: (String, String)| p.1@)
    }

    /// Whether a struct of this name was registered, and with which fields.
    pub closed spec fn struct_fields(&self, name: Seq<char>) -> Option<Seq<(String, Type)>> {
        if exists|i: int|
            0 <= i < self.struct_definitions.len() && #[trigger] self.struct_definitions[i].name@
                == name {
            let i = choose|i: int|
                0 <= i < self.struct_definitions.len() && #[trigger] self.struct_definitions[i].name@
                    == name;
            Some(self.struct_definitions[i].fields@)
        } else {
            None
        }
    }

    /// Whether an enum of this name was registered, and with which variants.
    pub closed spec fn enum_variants(&self, name: Seq<char>) -> Option<Seq<(String, Option<Type>)>> {
        if exists|i: int|
            0 <= i < self.enum_definitions.len() && #[trigger] self.enum_definitions[i].name@
                == name {
            let i = choose|i: int|
                0 <= i < self.enum_definitions.len() && #[trigger] self.enum_definitions[i].name@
                    == name;
            Some(self.enum_definitions[i].variants@)
        } else {
            None
        }
    }

    /// Identifiers are unique, and so are struct and enum names.
    pub closed spec fn wf(&self) -> bool {
        &&& forall|i: int, j: int|
            0 <= i < j < self.generated_types.len() ==> #[trigger] self.generated_types[i].0@
                != #[trigger] self.generated_types[j].0@
        &&& forall|i: int, j: int|
            0 <= i < j < self.struct_definitions.len() ==> #[trigger] self.struct_definitions[i].name@
                != #[trigger] self.struct_definitions[j].name@
        &&& forall|i: int, j: int|
            0 <= i < j < self.enum_definitions.len() ==> #[trigger] self.enum_definitions[i].name@
                != #[trigger] self.enum_definitions[j].name@
    }

    pub fn new() -> (r: Self)
        ensures
            r.wf(),
            r.ids() == Seq::<Seq<char>>::empty(),
            forall|n: Seq<char>| r.struct_fields(n) is None && r.enum_variants(n) is None,
    {
        let r = TypeRegistry {
            generated_types: Vec::new(),
            struct_definitions: Vec::new(),
            enum_definitions: Vec::new(),
        };
        proof {
            assert(r.ids() =~= Seq::<Seq<char>>::empty());
        }
        r
    }

    fn find_generated(&self, id: &String) -> (r: bool)
        ensures
            r == self.ids().contains(id@),
    {
        let mut i: usize = 0;
        while i < self.generated_types.len()
            invariant
                i <= self.generated_types.len(),
                forall|j: int| 0 <= j < i ==> self.generated_types[j].0@ != id@,
            decreases self.generated_types.len() - i,
        {
            if self.generated_types[i].0 == *id {
                proof {
                    assert(self.ids()[i as int] == id@);
                }
                return true;
            }
            i = i + 1;
        }
        proof {
            if self.ids().contains(id@) {
                let k = choose|k: int| 0 <= k < self.ids().len() && self.ids()[k] == id@;
                assert(self.generated_types[k].0@ == id@);
            }
        }
        false
    }

    fn record(&mut self, id: String, def: String)
        requires
            old(self).wf(),
            !old(self).ids().contains(id@),
        ensures
            final(self).wf(),
            final(self).ids() == old(self).ids().push(id@),
            final(self).defs() == old(self).defs().push(def@),
            final(self).struct_definitions == old(self).struct_definitions,
            final(self).enum_definitions == old(self).enum_definitions,
    {
        let ghost old_ids = self.ids();
        let ghost before = self.generated_types@;
        let ghost idv = id@;
        self.generated_types.push((id, def));
        proof {
            assert forall|i: int, j: int|
                0 <= i < j < self.generated_types.len() implies #[trigger] self.generated_types[i].0@
                != #[trigger] self.generated_types[j].0@ by {
                assert(self.generated_types[i] == before[i]);
                if j == self.generated_types.len() - 1 {
                    assert(old_ids[i] == before[i].0@);
                    if old_ids[i] == idv {
                        assert(old_ids.contains(idv));
                    }
                } else {
                    assert(self.generated_types[j] == before[j]);
                }
            }
            assert(self.ids() =~= old_ids.push(id@));
            assert(self.defs() =~= old(self).defs().push(def@));
        }
    }

    fn struct_index(&self, name: &String) -> (r: Option<usize>)
        ensures
            match r {
                Some(i) => i < self.struct_definitions.len() && self.struct_definitions[i as int].name@ == name@,
                None => forall|j: int|
                    0 <= j < self.struct_definitions.len() ==> self.struct_definitions[j].name@ != name@,
            },
    {
        let mut i: usize = 0;
        while i < self.struct_definitions.len()
            invariant
                i <= self.struct_definitions.len(),
                forall|j: int| 0 <= j < i ==> self.struct_definitions[j].name@ != name@,
            decreases self.struct_definitions.len() - i,
        {
            if self.struct_definitions[i].name == *name {
                return Some(i);
            }
            i = i + 1;
        }
        None
    }

    pub fn register_struct(&mut self, name: String, fields: Vec<(String, Type)>)
        requires
            old(self).wf(),
        ensures
            final(self).wf(),
            final(self).ids() == old(self).ids(),
            final(self).defs() == old(self).defs(),
            final(self).struct_fields(name@) == Some(fields@),
            forall|n: Seq<char>|
                n != name@ ==> final(self).struct_fields(n) == old(self).struct_fields(n),
            forall|n: Seq<char>| final(self).enum_variants(n) == old(self).enum_variants(n),
    {
        let ghost fv = fields@;
        let ghost nv = name@;
        let found = self.struct_index(&name);
        let i: usize = match found {
            Some(k) => k,
            None => self.struct_definitions.len(),
        };
        let ghost before = self.struct_definitions@;
        if i < self.struct_definitions.len() {
            self.struct_definitions.set(i, StructDefinition { name, fields });
        } else {
            self.struct_definitions.push(StructDefinition { name, fields });
        }
        proof {
            assert(self.enum_definitions@ == old(self).enum_definitions@);
            assert forall|n: Seq<char>| self.enum_variants(n) == old(self).enum_variants(n) by {}
            assert(self.struct_definitions[i as int].name@ == nv);
            assert forall|a: int, b: int|
                0 <= a < b < self.struct_definitions.len() implies #[trigger] self.struct_definitions[a].name@
                != #[trigger] self.struct_definitions[b].name@ by {
                if a != i {
                    assert(before[a] == self.struct_definitions[a]);
                }
                if b != i {
                    assert(before[b] == self.struct_definitions[b]);
                }
            }
            assert forall|n: Seq<char>| n != nv implies self.struct_fields(n) == old(
                self,
            ).struct_fields(n) by {
                if exists|k: int|
                    0 <= k < self.struct_definitions.len()
                        && #[trigger] self.struct_definitions[k].name@ == n {
                    let k = choose|k: int|
                        0 <= k < self.struct_definitions.len()
                            && #[trigger] self.struct_definitions[k].name@ == n;
                    if k != i {
                        assert(before[k] == self.struct_definitions[k]);
                    }
                }
                if exists|k: int|
                    0 <= k < before.len() && #[trigger] before[k].name@ == n {
                    let k = choose|k: int| 0 <= k < before.len() && #[trigger] before[k].name@ == n;
                    assert(before[k] == self.struct_definitions[k]);
                }
            }
        }
    }

    fn enum_index(&self, name: &String) -> (r: Option<usize>)
        ensures
            match r {
                Some(i) => i < self.enum_definitions.len() && self.enum_definitions[i as int].name@ == name@,
                None => forall|j: int|
                    0 <= j < self.enum_definitions.len() ==> self.enum_definitions[j].name@ != name@,
            },
    {
        let mut i: usize = 0;
        while i < self.enum_definitions.len()
            invariant
                i <= self.enum_definitions.len(),
                forall|j: int| 0 <= j < i ==> self.enum_definitions[j].name@ != name@,
            decreases self.enum_definitions.len() - i,
        {
            if self.enum_definitions[i].name == *name {
                return Some(i);
            }
            i = i + 1;
        }
        None
    }

    pub fn register_enum(&mut self, name: String, variants: Vec<(String, Option<Type>)>, is_public: bool)
        requires
            old(self).wf(),
        ensures
            final(self).wf(),
            final(self).ids() == old(self).ids(),
            final(self).defs() == old(self).defs(),
            final(self).enum_variants(name@) == Some(variants@),
            forall|n: Seq<char>|
                n != name@ ==> final(self).enum_variants(n) == old(self).enum_variants(n),
            forall|n: Seq<char>| final(self).struct_fields(n) == old(self).struct_fields(n),
    {
        let ghost nv = name@;
        let found = self.enum_index(&name);
        let i: usize = match found {
            Some(k) => k,
            None => self.enum_definitions.len(),
        };
        let ghost before = self.enum_definitions@;
        if i < self.enum_definitions.len() {
            self.enum_definitions.set(i, EnumDefinition { name, variants, is_public });
        } else {
            self.enum_definitions.push(EnumDefinition { name, variants, is_public });
        }
        proof {
            assert(self.struct_definitions@ == old(self).struct_definitions@);
            assert forall|n: Seq<char>| self.struct_fields(n) == old(self).struct_fields(n) by {}
            assert(self.enum_definitions[i as int].name@ == nv);
            assert forall|a: int, b: int|
                0 <= a < b < self.enum_definitions.len() implies #[trigger] self.enum_definitions[a].name@
                != #[trigger] self.enum_definitions[b].name@ by {
                if a != i {
                    assert(before[a] == self.enum_definitions[a]);
                }
                if b != i {
                    assert(before[b] == self.enum_definitions[b]);
                }
            }
            assert forall|n: Seq<char>| n != nv implies self.enum_variants(n) == old(
                self,
            ).enum_variants(n) by {
                if exists|k: int|
                    0 <= k < self.enum_definitions.len()
                        && #[trigger] self.enum_definitions[k].name@ == n {
                    let k = choose|k: int|
                        0 <= k < self.enum_definitions.len()
                            && #[trigger] self.enum_definitions[k].name@ == n;
                    if k != i {
                        assert(before[k] == self.enum_definitions[k]);
                    }
                }
                if exists|k: int| 0 <= k < before.len() && #[trigger] before[k].name@ == n {
                    let k = choose|k: int| 0 <= k < before.len() && #[trigger] before[k].name@ == n;
                    assert(before[k] == self.enum_definitions[k]);
                }
            }
        }
    }

    /// Builds the C identifier for a printable name: runs of characters that
    /// are not letters or digits become one `_`, and `_` at either end is dropped.
    pub fn sanitize_type_name(name: &str) -> (r: String)
        ensures
            r@ == sanitized(name@),
    {
        sanitize(name)
    }

    proof fn lemma_enum_at(&self, k: int, n: Seq<char>)
        requires
            self.wf(),
            0 <= k < self.enum_definitions.len(),
            self.enum_definitions[k].name@ == n,
        ensures
            self.enum_variants(n) == Some(self.enum_definitions[k].variants@),
    {
        let i = choose|i: int|
            0 <= i < self.enum_definitions.len() && #[trigger] self.enum_definitions[i].name@ == n;
        if i < k {
            assert(self.enum_definitions[i].name@ != self.enum_definitions[k].name@);
        } else if k < i {
            assert(self.enum_definitions[k].name@ != self.enum_definitions[i].name@);
        }
    }

    proof fn lemma_struct_at(&self, k: int, n: Seq<char>)
        requires
            self.wf(),
            0 <= k < self.struct_definitions.len(),
            self.struct_definitions[k].name@ == n,
        ensures
            self.struct_fields(n) == Some(self.struct_definitions[k].fields@),
    {
        let i = choose|i: int|
            0 <= i < self.struct_definitions.len() && #[trigger] self.struct_definitions[i].name@
                == n;
        if i < k {
            assert(self.struct_definitions[i].name@ != self.struct_definitions[k].name@);
        } else if k < i {
            assert(self.struct_definitions[k].name@ != self.struct_definitions[i].name@);
        }
    }

    fn get_option_type_id(&self, inner: &Type) -> (r: String)
        ensures
            r@ == ctype_ty(Ty::Option { inner: Box::new(inner@) }),
    {
        let mut s = String::from_str("Option_");
        s.append(sanitize(inner.name().as_str()).as_str());
        s
    }

    fn get_result_type_id(&self, ok: &Type, err: &Type) -> (r: String)
        ensures
            r@ == ctype_ty(Ty::Result { ok: Box::new(ok@), err: Box::new(err@) }),
    {
        let mut s = String::from_str("Result_");
        s.append(sanitize(ok.name().as_str()).as_str());
        s.append("_");
        s.append(sanitize(err.name().as_str()).as_str());
        s
    }

    fn get_union_type_id(&self, variants: &Vec<Type>) -> (r: String)
        ensures
            r@ == ctype_ty(Ty::Union { variants: type_views(variants@) }),
    {
        let mut s = String::from_str("Union_");
        s.append(ids_joined(variants).as_str());
        s
    }

    fn get_tuple_type_id(&self, fields: &Vec<Type>) -> (r: String)
        ensures
            r@ == ctype_ty(Ty::Tuple { fields: type_views(fields@) }),
    {
        let mut s = String::from_str("Tuple_");
        s.append(ids_joined(fields).as_str());
        s
    }

    /// Definition of `Option<inner>`, the first time it is asked for.
    pub fn generate_option_definition(&mut self, inner: &Type, arch: &ArchConfig) -> (r: Option<
        String,
    >)
        requires
            old(self).wf(),
        ensures
            final(self).wf(),
            Self::memo_step(*old(self), *final(self), Ty::Option { inner: Box::new(inner@) }, r),
    {
        let type_id = self.get_option_type_id(inner);
        if self.find_generated(&type_id) {
            return None;
        }
        let inner_c = if inner.is_void() {
            String::from_str("uint8_t")
        } else {
            inner.to_c_type(arch)
        };
        let mut def = String::from_str("typedef struct {\n    uint8_t tag;\n    ");
        def.append(inner_c.as_str());
        def.append(" value;\n} ");
        def.append(type_id.as_str());
        def.append(";\n");
        self.record(type_id, def.clone());
        Some(def)
    }

    /// Definition of `Result<ok, err>`, the first time it is asked for.
    pub fn generate_result_definition(&mut self, ok: &Type, err: &Type, arch: &ArchConfig) -> (r:
        Option<String>)
        requires
            old(self).wf(),
        ensures
            final(self).wf(),
            Self::memo_step(
                *old(self),
                *final(self),
                Ty::Result { ok: Box::new(ok@), err: Box::new(err@) },
                r,
            ),
    {
        let type_id = self.get_result_type_id(ok, err);
        if self.find_generated(&type_id) {
            return None;
        }
        let ok_c = if ok.is_void() {
            String::from_str("uint8_t")
        } else {
            ok.to_c_type(arch)
        };
        let err_c = if err.is_void() {
            String::from_str("uint8_t")
        } else {
            err.to_c_type(arch)
        };
        let mut def = String::from_str("typedef struct {\n    uint8_t tag;\n    union {\n        ");
        def.append(ok_c.as_str());
        def.append(" ok;\n        ");
        def.append(err_c.as_str());
        def.append(" err;\n    } data;\n} ");
        def.append(type_id.as_str());
        def.append(";\n");
        self.record(type_id, def.clone());
        Some(def)
    }

    /// Definition of the tuple of `fields`, the first time it is asked for.
    pub fn generate_tuple_definition(&mut self, fields: &Vec<Type>, arch: &ArchConfig) -> (r:
        Option<String>)
        requires
            old(self).wf(),
        ensures
            final(self).wf(),
            Self::memo_step(*old(self), *final(self), Ty::Tuple { fields: type_views(fields@) }, r),
    {
        let type_id = self.get_tuple_type_id(fields);
        if self.find_generated(&type_id) {
            return None;
        }
        let ghost s = type_views(fields@);
        proof {
            lemma_type_views(fields@);
        }
        let mut lines = String::new();
        let mut i: usize = 0;
        while i < fields.len()
            invariant
                s == type_views(fields@),
                s.len() == fields@.len(),
                forall|j: int| 0 <= j < fields@.len() ==> #[trigger] s[j] == fields@[j]@,
                i <= fields.len(),
                lines@ == field_lines(s.subrange(0, i as int)),
            decreases fields.len() - i,
        {
            proof {
                assert(s.subrange(0, i + 1).drop_last() =~= s.subrange(0, i as int));
            }
            lines.append("    ");
            lines.append(fields[i].to_c_type(arch).as_str());
            lines.append(" field_");
            lines.append(usize_text(i).as_str());
            lines.append(";\n");
            i = i + 1;
        }
        proof {
            assert(s.subrange(0, i as int) =~= s);
        }
        let mut def = String::from_str("typedef struct {\n");
        def.append(lines.as_str());
        def.append("} ");
        def.append(type_id.as_str());
        def.append(";\n");
        self.record(type_id, def.clone());
        Some(def)
    }

    fn generate_union_definition(&mut self, variants: &Vec<Type>, arch: &ArchConfig) -> (r: Option<
        String,
    >)
        requires
            old(self).wf(),
        ensures
            final(self).wf(),
            Self::memo_step(
                *old(self),
                *final(self),
                Ty::Union { variants: type_views(variants@) },
                r,
            ),
    {
        let type_id = self.get_union_type_id(variants);
        if self.find_generated(&type_id) {
            return None;
        }
        let ghost s = type_views(variants@);
        proof {
            lemma_type_views(variants@);
        }
        let tag_bits = arch.tag_bits_for_variants(variants.len());
        let tag_type = if tag_bits == 8 {
            "uint8_t"
        } else if tag_bits == 16 {
            "uint16_t"
        } else {
            "uint32_t"
        };
        let mut lines = String::new();
        let mut i: usize = 0;
        while i < variants.len()
            invariant
                s == type_views(variants@),
                s.len() == variants@.len(),
                forall|j: int| 0 <= j < variants@.len() ==> #[trigger] s[j] == variants@[j]@,
                i <= variants.len(),
                lines@ == variant_lines(s.subrange(0, i as int)),
            decreases variants.len() - i,
        {
            proof {
                assert(s.subrange(0, i + 1).drop_last() =~= s.subrange(0, i as int));
            }
            lines.append("        ");
            lines.append(variants[i].to_c_type(arch).as_str());
            lines.append(" variant_");
            lines.append(usize_text(i).as_str());
            lines.append(";\n");
            i = i + 1;
        }
        proof {
            assert(s.subrange(0, i as int) =~= s);
        }
        let mut def = String::from_str("typedef struct {\n    ");
        def.append(tag_type);
        def.append(" tag;\n    union {\n");
        def.append(lines.as_str());
        def.append("    } data;\n} ");
        def.append(type_id.as_str());
        def.append(";\n");
        self.record(type_id, def.clone());
        Some(def)
    }

    /// One step of the memo for the compound type `t`: a definition is handed
    /// out exactly when the identifier of `t` had none, and it is then
    /// remembered; nothing else changes.
    pub open spec fn memo_step(old_reg: Self, new_reg: Self, t: Ty, r: Option<String>) -> bool {
        match type_id(t) {
            Some(id) => if old_reg.ids().contains(id) {
                &&& r is None
                &&& new_reg.ids() == old_reg.ids()
                &&& new_reg.defs() == old_reg.defs()
                &&& new_reg.same_declarations(old_reg)
            } else {
                &&& r is Some
                &&& r->0@ == definition_text(t)
                &&& new_reg.ids() == old_reg.ids().push(id)
                &&& new_reg.defs() == old_reg.defs().push(definition_text(t))
                &&& new_reg.same_declarations(old_reg)
            },
            None => {
                &&& r is None
                &&& new_reg.ids() == old_reg.ids()
                &&& new_reg.defs() == old_reg.defs()
                &&& new_reg.same_declarations(old_reg)
            },
        }
    }

    /// The struct and enum declarations of two registries agree.
    pub open spec fn same_declarations(&self, other: Self) -> bool {
        &&& forall|n: Seq<char>| self.struct_fields(n) == other.struct_fields(n)
        &&& forall|n: Seq<char>| self.enum_variants(n) == other.enum_variants(n)
    }

    /// The C definition of a compound type, handed out at most once per
    /// identifier; `None` for every other type.
    pub fn generate_type_definition(&mut self, ty: &Type, arch: &ArchConfig) -> (r: Option<String>)
        requires
            old(self).wf(),
        ensures
            final(self).wf(),
            Self::memo_step(*old(self), *final(self), ty@, r),
    {
        match ty {
            Type::Option { inner } => self.generate_option_definition(inner, arch),
            Type::Result { ok, err } => self.generate_result_definition(ok, err, arch),
            Type::Tuple { fields } => self.generate_tuple_definition(fields, arch),
            Type::Union { variants } => self.generate_union_definition(variants, arch),
            _ => None,
        }
    }

    /// The enumerator and tagged struct of a registered enum.
    pub fn generate_enum_definition(&mut self, name: &str, arch: &ArchConfig) -> (r: Option<String>)
        requires
            old(self).wf(),
        ensures
            *final(self) == *old(self),
            match old(self).enum_variants(name@) {
                Some(vs) => r is Some && r->0@ == enum_text(name@, vs),
                None => r is None,
            },
    {
        let key = String::from_str(name);
        let found = self.enum_index(&key);
        let k = match found {
            Some(k) => k,
            None => {
                proof {
                    assert(!exists|i: int|
                        0 <= i < self.enum_definitions.len()
                            && #[trigger] self.enum_definitions[i].name@ == name@);
                }
                return None;
            },
        };
        let ghost vs = self.enum_variants(name@)->0;
        proof {
            assert(self.enum_definitions[k as int].name@ == name@);
        }
        let variants = &self.enum_definitions[k].variants;
        proof {
            self.lemma_enum_at(k as int, name@);
        }
        let mut enumerators = String::new();
        let mut payloads = String::new();
        let mut i: usize = 0;
        while i < variants.len()
            invariant
                i <= variants.len(),
                enumerators@ == enumerator_lines(name@, variants@.subrange(0, i as int)),
                payloads@ == payload_lines(variants@.subrange(0, i as int)),
            decreases variants.len() - i,
        {
            proof {
                assert(variants@.subrange(0, i + 1).drop_last() =~= variants@.subrange(0, i as int));
            }
            enumerators.append("    ");
            enumerators.append(name);
            enumerators.append("__");
            enumerators.append(variants[i].0.as_str());
            enumerators.append(" = ");
            enumerators.append(usize_text(i).as_str());
            enumerators.append(",\n");
            match &variants[i].1 {
                Some(t) => {
                    payloads.append("        ");
                    payloads.append(t.to_c_type(arch).as_str());
                    payloads.append(" ");
                    payloads.append(variants[i].0.as_str());
                    payloads.append(";\n");
                },
                None => {
                    proof {
                        assert(payloads@ + Seq::<char>::empty() =~= payloads@);
                    }
                },
            }
            i = i + 1;
        }
        proof {
            assert(variants@.subrange(0, i as int) =~= variants@);
        }
        let mut def = String::from_str("typedef enum {\n");
        def.append(enumerators.as_str());
        def.append("} ");
        def.append(name);
        def.append("_Tag;\n\n");
        def.append("typedef struct {\n");
        def.append("    ");
        def.append(name);
        def.append("_Tag tag;\n");
        def.append("    union {\n");
        def.append(payloads.as_str());
        def.append("    } data;\n} ");
        def.append(name);
        def.append(";\n");
        Some(def)
    }

    /// Bytes taken by a registered struct: each field rounded up to whole bytes.
    pub fn get_struct_size(&self, name: &str, arch: &ArchConfig) -> (r: Option<usize>)
        requires
            self.wf(),
            self.struct_fields(name@) is Some ==> fields_fit(self.struct_fields(name@)->0, *arch),
        ensures
            match self.struct_fields(name@) {
                Some(fs) => r == Some(fields_bytes(fs, *arch) as usize),
                None => r is None,
            },
    {
        let key = String::from_str(name);
        let found = self.struct_index(&key);
        let k = match found {
            Some(k) => k,
            None => {
                return None;
            },
        };
        proof {
            self.lemma_struct_at(k as int, name@);
        }
        let fields = &self.struct_definitions[k].fields;
        let ghost fs = fields@;
        let mut total: usize = 0;
        let mut i: usize = 0;
        while i < fields.len()
            invariant
                fs == fields@,
                fields_fit(fs, *arch),
                i <= fields.len(),
                total == fields_bytes(fs.subrange(0, i as int), *arch),
            decreases fields.len() - i,
        {
            proof {
                assert(fs.subrange(0, i + 1).drop_last() =~= fs.subrange(0, i as int));
                lemma_fields_bytes_prefix(fs, *arch, i + 1);
                assert(size_fits(fs[i as int].1@, *arch));
            }
            let bits = fields[i].1.size_bits(arch);
            total = total + (bits + 7) / 8;
            i = i + 1;
        }
        proof {
            assert(fs.subrange(0, i as int) =~= fs);
        }
        Some(total)
    }
}

/// Idempotent type emission: once a compound type has been handed a
/// definition, asking again for the same type hands out nothing, and the
/// identifiers already defined are never forgotten.
pub proof fn lemma_definition_at_most_once(
    r0: TypeRegistry,
    r1: TypeRegistry,
    r2: TypeRegistry,
    t: Ty,
    first: Option<String>,
    second: Option<String>,
)
    requires
        TypeRegistry::memo_step(r0, r1, t, first),
        TypeRegistry::memo_step(r1, r2, t, second),
    ensures
        second is None,
        r0.ids().is_prefix_of(r1.ids()),
        r1.ids() == r2.ids(),
{
    if let Some(id) = type_id(t) {
        if !r0.ids().contains(id) {
            assert(r1.ids()[r1.ids().len() - 1] == id);
        }
        assert(r0.ids().is_prefix_of(r1.ids())) by {
            assert forall|i: int| 0 <= i < r0.ids().len() implies r0.ids()[i] == r1.ids()[i] by {}
        }
    } else {
        assert(r0.ids().is_prefix_of(r1.ids())) by {
            assert forall|i: int| 0 <= i < r0.ids().len() implies r0.ids()[i] == r1.ids()[i] by {}
        }
    }
}

} // verus!
