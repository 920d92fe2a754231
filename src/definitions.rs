use vstd::prelude::*;
use vstd::utf8::encode_utf8;
use crate::ast::{EnumDef, EnumVariant, ExternDecl, Function, ImplBlock, ImplMethod, Program, Stmt, StructDef, StructField};
use crate::typecheck::{find_latest, latest, spells};
use crate::diagnostics::{join2, join3, join4, text};
use crate::emitter::{Codegen, FunctionInfo, MethodInfo, StructInfo, VarInfo};
use crate::ir::IR;
use crate::lowering::lemma_prefix_append;
use crate::text::{contains_text, occurs_in};
use crate::types::{ctype_ty, declarable, Ty, Type};

verus! {

/// A function of a linked library, with its C types already spelled out.
#[derive(Debug)]
pub struct LibrarySignature {
    pub name: String,
    pub return_type: String,
    pub parameters: Vec<(String, String)>,
}

/// One line `    T name;` per field.
pub open spec fn field_lines(fs: Seq<StructField>) -> Seq<char>
    decreases fs.len(),
{
    if fs.len() == 0 {
        Seq::empty()
    } else {
        field_lines(fs.drop_last()) + "    "@ + ctype_ty(fs.last().ty@) + " "@ + fs.last().name@ + ";\n"@
    }
}

/// The constructor's parameters `T name`, separated by `", "`.
pub open spec fn ctor_params(fs: Seq<StructField>) -> Seq<char>
    decreases fs.len(),
{
    if fs.len() == 0 {
        Seq::empty()
    } else if fs.len() == 1 {
        ctype_ty(fs[0].ty@) + " "@ + fs[0].name@
    } else {
        ctor_params(fs.drop_last()) + ", "@ + ctype_ty(fs.last().ty@) + " "@ + fs.last().name@
    }
}

/// One line `    instance.name = name;` per field.
pub open spec fn ctor_assigns(fs: Seq<StructField>) -> Seq<char>
    decreases fs.len(),
{
    if fs.len() == 0 {
        Seq::empty()
    } else {
        ctor_assigns(fs.drop_last()) + "    instance."@ + fs.last().name@ + " = "@ + fs.last().name@ + ";\n"@
    }
}

/// The signature of the constructor of struct `name`.
pub open spec fn ctor_signature(name: Seq<char>, fs: Seq<StructField>) -> Seq<char> {
    name + " "@ + name + "_new("@ + ctor_params(fs) + ")"@
}

/// The declarations written for a struct: its record and its constructor's prototype.
pub open spec fn struct_decl_text(name: Seq<char>, fs: Seq<StructField>) -> Seq<char> {
    "typedef struct "@ + name + " {\n"@ + field_lines(fs) + "} "@ + name + ";\n\n"@ + ctor_signature(name, fs) + ";\n"@
}

/// The body of the constructor of a struct: it copies every parameter into its field.
pub open spec fn ctor_text(name: Seq<char>, fs: Seq<StructField>) -> Seq<char> {
    ctor_signature(name, fs) + " {\n"@ + "    "@ + name + " instance;\n"@ + ctor_assigns(fs) + "    return instance;\n}\n\n"@
}

/// The parameters `T var_name`, separated by `", "`.
pub open spec fn param_list(ps: Seq<(String, Type, crate::ast::ParamModifier)>) -> Seq<char>
    decreases ps.len(),
{
    if ps.len() == 0 {
        Seq::empty()
    } else if ps.len() == 1 {
        ctype_ty(ps[0].1@) + " var_"@ + ps[0].0@
    } else {
        param_list(ps.drop_last()) + ", "@ + ctype_ty(ps.last().1@) + " var_"@ + ps.last().0@
    }
}

/// The C name of a source function: `main` becomes `vix_main`.
pub open spec fn c_function_name(name: Seq<char>) -> Seq<char> {
    if name == "main"@ {
        "vix_main"@
    } else {
        name
    }
}

/// The C signature of a source function.
pub open spec fn function_signature(f: Function) -> Seq<char> {
    ctype_ty(f.return_type@) + " "@ + c_function_name(f.name@) + "("@ + param_list(f.params@) + ")"@
}

/// The C signature of a method of `struct_name`: named `Struct_method`, and
/// taking `Struct* self` first when it is an instance method.
pub open spec fn method_signature(struct_name: Seq<char>, m: ImplMethod) -> Seq<char> {
    ctype_ty(m.return_type@) + " "@ + struct_name + "_"@ + m.name@ + "("@ + (if m.self_modifier is Some {
        struct_name + "* self"@ + (if m.params@.len() > 0 {
            ", "@
        } else {
            Seq::empty()
        })
    } else {
        Seq::empty()
    }) + method_param_list(m.params@) + ")"@
}

/// The parameters of a method, `T name`, separated by `", "`.
pub open spec fn method_param_list(ps: Seq<(String, Type, crate::ast::ParamModifier)>) -> Seq<char>
    decreases ps.len(),
{
    if ps.len() == 0 {
        Seq::empty()
    } else if ps.len() == 1 {
        ctype_ty(ps[0].1@) + " "@ + ps[0].0@
    } else {
        method_param_list(ps.drop_last()) + ", "@ + ctype_ty(ps.last().1@) + " "@ + ps.last().0@
    }
}

/// The `return;` that ends a void body written without one.
pub open spec fn return_tail(ret: Ty, body: Seq<char>) -> Seq<char> {
    if ret is Void && !occurs_in(encode_utf8("return"@), encode_utf8(body)) {
        "    return;\n"@
    } else {
        Seq::empty()
    }
}

/// The view of an optional payload type.
pub open spec fn payload_view(p: Option<Type>) -> Option<Ty> {
    match p {
        Some(t) => Some(t@),
        None => None,
    }
}

/// The payload an enum variant carries in the tagged union: none for a unit
/// variant, the tuple of its types for a tuple variant, and the payload
/// struct `Enum_Variant_Payload` for a variant with named fields.
pub open spec fn variant_payload(enum_name: Seq<char>, v: EnumVariant) -> Option<Ty> {
    match v {
        EnumVariant::Simple(_) => None,
        EnumVariant::Tuple(_, ts) => Some(Ty::Tuple { fields: crate::types::type_views(ts@) }),
        EnumVariant::Struct(n, _) => Some(Ty::Struct { name: enum_name + "_"@ + n@ + "_Payload"@ }),
    }
}

/// The name of an enum variant.
pub open spec fn variant_name(v: EnumVariant) -> Seq<char> {
    match v {
        EnumVariant::Simple(n) => n@,
        EnumVariant::Tuple(n, _) => n@,
        EnumVariant::Struct(n, _) => n@,
    }
}

/// The C `main` that runs the program's `main`.
pub open spec fn main_shim() -> Seq<char> {
    "\nint main() {\n    vix_main();\n    return 0;\n}\n"@
}

/// The full C definition of a source function whose lowered statements are `b`.
pub open spec fn function_definition(f: Function, b: Seq<char>) -> Seq<char> {
    function_signature(f) + " {\n"@ + b + return_tail(f.return_type@, b) + "}\n\n"@
}

/// `b` is the lowering of `stmts`, one statement after another.
pub open spec fn lowered_block(stmts: Seq<Stmt>, b: Seq<char>) -> bool {
    exists|pieces: Seq<Seq<char>>|
        pieces.len() == stmts.len() && (forall|j: int| 0 <= j < pieces.len() ==> #[trigger] crate::statements::piece_fits(stmts[j], pieces[j]))
            && b == crate::statements::concat_pieces(pieces)
}

/// `d` is a full definition of `f`, its body the lowering of its statements.
pub open spec fn is_definition_of(f: Function, d: Seq<char>) -> bool {
    exists|b: Seq<char>| lowered_block(f.body@, b) && d == #[trigger] function_definition(f, b)
}

fn emit(out: &mut String, s: &str)
    ensures
        final(out)@ == old(out)@ + s@,
        old(out)@.is_prefix_of(final(out)@),
{
    out.append(s);
    proof {
        lemma_prefix_append(old(out)@, s@);
    }
}

impl Codegen {
    fn struct_texts(&self, sd: &StructDef) -> (r: (String, String))
        ensures
            r.0@ == struct_decl_text(sd.name@, sd.fields@),
            r.1@ == ctor_text(sd.name@, sd.fields@),
    {
        let fs = &sd.fields;
        let mut lines = String::new();
        let mut params = String::new();
        let mut assigns = String::new();
        let mut i: usize = 0;
        while i < fs.len()
            invariant
                i <= fs.len(),
                lines@ == field_lines(fs@.subrange(0, i as int)),
                params@ == ctor_params(fs@.subrange(0, i as int)),
                assigns@ == ctor_assigns(fs@.subrange(0, i as int)),
            decreases fs.len() - i,
        {
            proof {
                assert(fs@.subrange(0, i + 1).drop_last() =~= fs@.subrange(0, i as int));
            }
            let c = fs[i].ty.to_c_type(&self.arch);
            lines.append("    ");
            lines.append(c.as_str());
            lines.append(" ");
            lines.append(fs[i].name.as_str());
            lines.append(";\n");
            if i > 0 {
                params.append(", ");
            }
            params.append(c.as_str());
            params.append(" ");
            params.append(fs[i].name.as_str());
            assigns.append("    instance.");
            assigns.append(fs[i].name.as_str());
            assigns.append(" = ");
            assigns.append(fs[i].name.as_str());
            assigns.append(";\n");
            i = i + 1;
            proof {
                if i == 1 {
                    assert(params@ =~= ctype_ty(fs@[0].ty@) + " "@ + fs@[0].name@);
                }
            }
        }
        proof {
            assert(fs@.subrange(0, i as int) =~= fs@);
        }
        let name = sd.name.as_str();
        let mut sig = join2(name, " ");
        sig.append(name);
        sig.append("_new(");
        sig.append(params.as_str());
        sig.append(")");
        let mut decl = join3("typedef struct ", name, " {\n");
        decl.append(lines.as_str());
        decl.append("} ");
        decl.append(name);
        decl.append(";\n\n");
        decl.append(sig.as_str());
        decl.append(";\n");
        let mut ctor = sig.clone();
        ctor.append(" {\n");
        ctor.append("    ");
        ctor.append(name);
        ctor.append(" instance;\n");
        ctor.append(assigns.as_str());
        ctor.append("    return instance;\n}\n\n");
        (decl, ctor)
    }

    /// Emits a struct: its record and the prototype of its constructor go to
    /// the forward declarations, the constructor itself to the function
    /// bodies. A second struct of the same name, or a void field, is an error.
    pub fn codegen_struct_definition(&mut self, struct_def: &StructDef) -> (r: Result<(), ()>)
        requires
            old(self).wf(),
        ensures
            final(self).wf(),
            final(self).var_count == old(self).var_count,
            final(self).label_count == old(self).label_count,
            final(self).diagnostics.error_count >= old(self).diagnostics.error_count,
            final(self).diagnostics.reported().len() >= old(self).diagnostics.reported().len(),
            final(self).arch == old(self).arch,
            r is Ok,
            final(self).ir.functions@ == old(self).ir.functions@ + ctor_text(struct_def.name@, struct_def.fields@),
            (exists|k: int| 0 <= k < struct_def.fields@.len() && !declarable(#[trigger] struct_def.fields@[k].ty@))
                ==> final(self).diagnostics.reported().len() > old(self).diagnostics.reported().len()
                && final(self).diagnostics.error_count > 0,
            final(self).ir.forward_decls@.len() >= struct_decl_text(struct_def.name@, struct_def.fields@).len(),
            final(self).ir.forward_decls@.subrange(
                final(self).ir.forward_decls@.len() - struct_decl_text(struct_def.name@, struct_def.fields@).len(),
                final(self).ir.forward_decls@.len() as int,
            ) == struct_decl_text(struct_def.name@, struct_def.fields@),
            latest(final(self).structs@, struct_def.name@) is Some,
    {
        self.ensure_string_typedef();
        let name = &struct_def.name;
        if find_latest(&self.structs, name.as_str()).is_some() {
            let msg = join3("Struct '", name.as_str(), "' is already defined");
            self.fail("DuplicateStruct", msg.as_str(), "Each struct must have a unique name.");
        }
        let mut fields_info: Vec<(String, Type, bool)> = Vec::new();
        let mut reg_fields: Vec<(String, Type)> = Vec::new();
        let mut i: usize = 0;
        while i < struct_def.fields.len()
            invariant
                i <= struct_def.fields.len(),
                self.wf(),
                self.var_count == old(self).var_count,
                self.label_count == old(self).label_count,
                self.diagnostics.error_count >= old(self).diagnostics.error_count,
                self.diagnostics.reported().len() >= old(self).diagnostics.reported().len(),
                self.arch == old(self).arch,
                self.ir.functions@ == old(self).ir.functions@,
                (exists|k: int| 0 <= k < i && !declarable(#[trigger] struct_def.fields@[k].ty@)) ==> self.diagnostics.reported().len()
                    > old(self).diagnostics.reported().len() && self.diagnostics.error_count > 0,
            decreases struct_def.fields.len() - i,
        {
            let f = &struct_def.fields[i];
            if !f.ty.is_declarable() {
                let msg = join4("Field '", f.name.as_str(), "' in struct '", name.as_str());
                self.fail("VoidField", msg.as_str(), "Struct fields must have concrete types.");
            }
            fields_info.push((f.name.clone(), f.ty.duplicate(), f.is_public));
            reg_fields.push((f.name.clone(), f.ty.duplicate()));
            i = i + 1;
        }
        let ghost fd0 = self.ir.forward_decls@;
        let ghost fn0 = self.ir.functions@;
        let (decl, ctor) = self.struct_texts(struct_def);
        let ghost before = self.structs@;
        self.structs.push((name.clone(), StructInfo { fields: fields_info }));
        self.type_registry.register_struct(name.clone(), reg_fields);
        self.ir.forward_decls.append(decl.as_str());
        self.ir.functions.append(ctor.as_str());
        proof {
            assert(self.structs@.last().0@ == name@);
            let d = self.ir.forward_decls@;
            let t = struct_decl_text(struct_def.name@, struct_def.fields@);
            assert(d =~= fd0 + t);
            assert(d.subrange(d.len() - t.len(), d.len() as int) =~= t);
        }
        Ok(())
    }
}

impl Codegen {
    /// Emits an enum: an enumerator of its variants and a tagged record whose
    /// union has one member per variant with a payload. A variant with named
    /// fields gets a payload struct `Enum_Variant_Payload` of its own.
    pub fn codegen_enum_definition(&mut self, enum_def: &EnumDef) -> (r: Result<(), ()>)
        requires
            old(self).wf(),
        ensures
            final(self).wf(),
            final(self).var_count == old(self).var_count,
            final(self).label_count == old(self).label_count,
            final(self).diagnostics.error_count >= old(self).diagnostics.error_count,
            final(self).diagnostics.reported().len() >= old(self).diagnostics.reported().len(),
            final(self).arch == old(self).arch,
            r is Ok,
            final(self).type_registry.enum_variants(enum_def.name@) is Some,
            ({
                let vs = final(self).type_registry.enum_variants(enum_def.name@)->0;
                &&& vs.len() == enum_def.variants@.len()
                &&& forall|j: int| 0 <= j < vs.len() ==> #[trigger] vs[j].0@ == variant_name(enum_def.variants@[j])
                    && (vs[j].1 is None <==> enum_def.variants@[j] is Simple)
                    && payload_view(vs[j].1) == variant_payload(enum_def.name@, enum_def.variants@[j])
                &&& final(self).ir.forward_decls@.len() >= crate::registry::enum_text(enum_def.name@, vs).len()
                &&& final(self).ir.forward_decls@.subrange(
                    final(self).ir.forward_decls@.len() - crate::registry::enum_text(enum_def.name@, vs).len(),
                    final(self).ir.forward_decls@.len() as int,
                ) == crate::registry::enum_text(enum_def.name@, vs)
            }),
    {
        let mut variants: Vec<(String, Option<Type>)> = Vec::new();
        let mut i: usize = 0;
        while i < enum_def.variants.len()
            invariant
                i <= enum_def.variants.len(),
                self.wf(),
                self.var_count == old(self).var_count,
                self.label_count == old(self).label_count,
                self.diagnostics.error_count >= old(self).diagnostics.error_count,
                self.diagnostics.reported().len() >= old(self).diagnostics.reported().len(),
                self.arch == old(self).arch,
                variants@.len() == i,
                forall|j: int| 0 <= j < i ==> #[trigger] variants@[j].0@ == variant_name(enum_def.variants@[j])
                    && (variants@[j].1 is None <==> enum_def.variants@[j] is Simple)
                    && payload_view(variants@[j].1) == variant_payload(enum_def.name@, enum_def.variants@[j]),
            decreases enum_def.variants.len() - i,
        {
            match &enum_def.variants[i] {
                EnumVariant::Simple(name) => variants.push((name.clone(), None)),
                EnumVariant::Tuple(name, types) => {
                    let copies = crate::types::copy_types(types);
                    let payload = Type::Tuple { fields: copies };
                    self.ensure_type_defined(&payload);
                    variants.push((name.clone(), Some(payload)));
                },
                EnumVariant::Struct(name, fields) => {
                    let payload = join4(enum_def.name.as_str(), "_", name.as_str(), "_Payload");
                    let mut copies: Vec<StructField> = Vec::new();
                    let mut k: usize = 0;
                    while k < fields.len()
                        invariant
                            k <= fields.len(),
                        decreases fields.len() - k,
                    {
                        copies.push(StructField {
                            name: fields[k].name.clone(),
                            ty: fields[k].ty.duplicate(),
                            is_public: fields[k].is_public,
                            is_mutable: fields[k].is_mutable,
                        });
                        k = k + 1;
                    }
                    let sd = StructDef { name: payload.clone(), fields: copies, is_public: enum_def.is_public };
                    let _ = self.codegen_struct_definition(&sd);
                    variants.push((name.clone(), Some(Type::Struct { name: payload })));
                },
            }
            i = i + 1;
        }
        let ghost vs = variants@;
        self.type_registry.register_enum(enum_def.name.clone(), variants, enum_def.is_public);
        let ghost reg = self.type_registry;
        let ghost fd0 = self.ir.forward_decls@;
        match self.type_registry.generate_enum_definition(enum_def.name.as_str(), &self.arch) {
            Some(def) => self.ir.forward_decls.append(def.as_str()),
            None => {},
        }
        proof {
            assert(self.type_registry == reg);
            let t = crate::registry::enum_text(enum_def.name@, vs);
            let d = self.ir.forward_decls@;
            assert(d =~= fd0 + t);
            assert(d.subrange(d.len() - t.len(), d.len() as int) =~= t);
            assert(self.type_registry.enum_variants(enum_def.name@) == Some(vs));
            assert(vs.len() == enum_def.variants@.len());
            assert(forall|j: int| 0 <= j < vs.len() ==> #[trigger] vs[j].0@ == variant_name(enum_def.variants@[j])
                && (vs[j].1 is None <==> enum_def.variants@[j] is Simple)
                && payload_view(vs[j].1) == variant_payload(enum_def.name@, enum_def.variants@[j]));
            assert(self.type_registry.enum_variants(enum_def.name@) == Some(vs));
            assert(vs.len() == enum_def.variants@.len());
            assert(forall|j: int| 0 <= j < vs.len() ==> #[trigger] vs[j].0@ == variant_name(enum_def.variants@[j])
                && (vs[j].1 is None <==> enum_def.variants@[j] is Simple)
                && payload_view(vs[j].1) == variant_payload(enum_def.name@, enum_def.variants@[j]));
        }
        Ok(())
    }

    fn params_text(&self, params: &Vec<(String, Type, crate::ast::ParamModifier)>) -> (r: String)
        ensures
            r@ == param_list(params@),
    {
        let mut out = String::new();
        let mut i: usize = 0;
        while i < params.len()
            invariant
                i <= params.len(),
                out@ == param_list(params@.subrange(0, i as int)),
            decreases params.len() - i,
        {
            proof {
                assert(params@.subrange(0, i + 1).drop_last() =~= params@.subrange(0, i as int));
            }
            if i > 0 {
                out.append(", ");
            }
            out.append(params[i].1.to_c_type(&self.arch).as_str());
            out.append(" var_");
            out.append(params[i].0.as_str());
            i = i + 1;
            proof {
                if i == 1 {
                    assert(out@ =~= ctype_ty(params@[0].1@) + " var_"@ + params@[0].0@);
                }
            }
        }
        proof {
            assert(params@.subrange(0, i as int) =~= params@);
        }
        out
    }

    fn method_params_text(&self, params: &Vec<(String, Type, crate::ast::ParamModifier)>) -> (r: String)
        ensures
            r@ == method_param_list(params@),
    {
        let mut out = String::new();
        let mut i: usize = 0;
        while i < params.len()
            invariant
                i <= params.len(),
                out@ == method_param_list(params@.subrange(0, i as int)),
            decreases params.len() - i,
        {
            proof {
                assert(params@.subrange(0, i + 1).drop_last() =~= params@.subrange(0, i as int));
            }
            if i > 0 {
                out.append(", ");
            }
            out.append(params[i].1.to_c_type(&self.arch).as_str());
            out.append(" ");
            out.append(params[i].0.as_str());
            i = i + 1;
            proof {
                if i == 1 {
                    assert(out@ =~= ctype_ty(params@[0].1@) + " "@ + params@[0].0@);
                }
            }
        }
        proof {
            assert(params@.subrange(0, i as int) =~= params@);
        }
        out
    }

    fn define_all(&mut self, params: &Vec<(String, Type, crate::ast::ParamModifier)>)
        requires
            old(self).wf(),
        ensures
            final(self).defined_from(*old(self)),
    {
        let mut i: usize = 0;
        while i < params.len()
            invariant
                i <= params.len(),
                self.defined_from(*old(self)),
            decreases params.len() - i,
        {
            self.ensure_type_defined(&params[i].1);
            i = i + 1;
        }
    }

    /// Emits a function. With `only_signatures` its prototype goes to the
    /// forward declarations and the bodies stay as they are; otherwise its
    /// body is lowered and appended to the function bodies. `main` is
    /// emitted as `vix_main`.
    pub fn codegen_function(&mut self, func: &Function, only_signatures: bool)
        requires
            old(self).wf(),
        ensures
            final(self).wf(),
            final(self).var_count >= old(self).var_count,
            final(self).label_count >= old(self).label_count,
            final(self).arch == old(self).arch,
            final(self).diagnostics.error_count >= old(self).diagnostics.error_count,
            final(self).diagnostics.reported().len() >= old(self).diagnostics.reported().len(),
            only_signatures ==> final(self).ir.functions == old(self).ir.functions,
            only_signatures ==> occurs_in(
                encode_utf8(function_signature(*func) + ";\n"@),
                encode_utf8(final(self).ir.forward_decls@),
            ),
            only_signatures ==> old(self).ir.forward_decls@.is_prefix_of(final(self).ir.forward_decls@),
            !only_signatures ==> old(self).ir.functions@.is_prefix_of(final(self).ir.functions@),
            !only_signatures ==> is_definition_of(*func, final(self).ir.functions@.subrange(
                old(self).ir.functions@.len() as int,
                final(self).ir.functions@.len() as int,
            )),
            !only_signatures ==> final(self).ir.functions@.len() >= old(self).ir.functions@.len() + function_signature(*func).len() + 3,
            !only_signatures ==> final(self).ir.functions@.subrange(
                old(self).ir.functions@.len() as int,
                (old(self).ir.functions@.len() + function_signature(*func).len() + 3) as int,
            ) == function_signature(*func) + " {\n"@,
            final(self).user_functions@.len() == old(self).user_functions@.len() + 1,
            final(self).user_functions@.last().0@ == func.name@,
            final(self).user_functions@.last().1.return_type@ == func.return_type@,
            final(self).user_functions@.last().1.params@.len() == func.params@.len(),
    {
        let mut param_types: Vec<(String, Type)> = Vec::new();
        let mut i: usize = 0;
        while i < func.params.len()
            invariant
                i <= func.params.len(),
                self.wf(),
                self.var_count == old(self).var_count,
                self.label_count == old(self).label_count,
                self.arch == old(self).arch,
                self.diagnostics.error_count == old(self).diagnostics.error_count,
                self.diagnostics.reported().len() == old(self).diagnostics.reported().len(),
                self.ir == old(self).ir,
                self.user_functions == old(self).user_functions,
                param_types@.len() == i,
            decreases func.params.len() - i,
        {
            param_types.push((func.params[i].0.clone(), func.params[i].1.duplicate()));
            i = i + 1;
        }
        self.user_functions.push((func.name.clone(), FunctionInfo { params: param_types, return_type: func.return_type.duplicate() }));
        let ghost uf1 = self.user_functions;
        proof {
            assert(self.user_functions@.len() == old(self).user_functions@.len() + 1);
        }
        let c_return = func.return_type.to_c_type(&self.arch);
        let c_name = if spells(&func.name, "main") {
            text("vix_main")
        } else {
            func.name.clone()
        };
        let params = self.params_text(&func.params);
        let mut sig = join3(c_return.as_str(), " ", c_name.as_str());
        sig.append("(");
        sig.append(params.as_str());
        sig.append(")");
        proof {
            reveal_strlit("main");
        }
        if only_signatures {
            self.ensure_type_defined(&func.return_type);
            self.define_all(&func.params);
            let mut line = sig.clone();
            line.append(";\n");
            let ghost fd0 = self.ir.forward_decls@;
            if !contains_text(self.ir.forward_decls.as_str(), line.as_str()) {
                self.ir.forward_decls.append(line.as_str());
                proof {
                    let d = self.ir.forward_decls@;
                    crate::text::lemma_encode_concat(fd0, line@);
                    let bl = encode_utf8(line@);
                    let bd = encode_utf8(d);
                    assert(bd =~= encode_utf8(fd0) + bl);
                    assert(bd.subrange(encode_utf8(fd0).len() as int, (encode_utf8(fd0).len() + bl.len()) as int) =~= bl);
                    assert(occurs_in(bl, bd));
                    lemma_prefix_append(fd0, line@);
                }
            } else {
                proof {
                    lemma_prefix_append(fd0, Seq::empty());
                    assert(fd0 + Seq::<char>::empty() =~= fd0);
                }
            }
            return;
        }
        self.vars.clear();
        let mut j: usize = 0;
        while j < func.params.len()
            invariant
                j <= func.params.len(),
                self.wf(),
                self.var_count == old(self).var_count,
                self.label_count == old(self).label_count,
                self.arch == old(self).arch,
                self.diagnostics.error_count == old(self).diagnostics.error_count,
                self.diagnostics.reported().len() == old(self).diagnostics.reported().len(),
                self.ir == old(self).ir,
                self.user_functions == uf1,
            decreases func.params.len() - j,
        {
            let p = &func.params[j];
            self.vars.push((p.0.clone(), VarInfo { c_name: join2("var_", p.0.as_str()), ty: p.1.duplicate() }));
            j = j + 1;
        }
        self.current_return_type = Some(func.return_type.duplicate());
        let mut code = sig.clone();
        code.append(" {\n");
        let ghost head = code@;
        let mut body_code = String::new();
        let ghost mut pieces: Seq<Seq<char>> = Seq::empty();
        let mut k: usize = 0;
        while k < func.body.len()
            invariant
                k <= func.body.len(),
                self.wf(),
                self.var_count >= old(self).var_count,
                self.label_count >= old(self).label_count,
                self.arch == old(self).arch,
                self.diagnostics.error_count >= old(self).diagnostics.error_count,
                self.diagnostics.reported().len() >= old(self).diagnostics.reported().len(),
                self.ir.functions == old(self).ir.functions,
                self.user_functions == uf1,
                pieces.len() == k,
                forall|j: int| 0 <= j < k ==> #[trigger] crate::statements::piece_fits(func.body@[j], pieces[j]),
                body_code@ == crate::statements::concat_pieces(pieces),
            decreases func.body.len() - k,
        {
            let ghost before_code = body_code@;
            let _ = self.codegen_stmt(&func.body[k], &mut body_code);
            proof {
                let piece = body_code@.subrange(before_code.len() as int, body_code@.len() as int);
                assert(body_code@ =~= before_code + piece);
                let old_pieces = pieces;
                pieces = pieces.push(piece);
                assert(pieces.drop_last() =~= old_pieces);
                assert(body_code@ =~= crate::statements::concat_pieces(pieces));
            }
            k = k + 1;
        }
        self.current_return_type = None;
        let ghost code0 = code@;
        let ghost mid = body_code@;
        proof {
            assert(lowered_block(func.body@, mid));
        }
        code.append(body_code.as_str());
        if func.return_type.is_void() && !contains_text(body_code.as_str(), "return") {
            code.append("    return;\n");
        }
        code.append("}\n\n");
        let ghost f0 = self.ir.functions@;
        self.ir.functions.append(code.as_str());
        proof {
            assert(code@ =~= code0 + mid + return_tail(func.return_type@, mid) + "}\n\n"@);
            let f = self.ir.functions@;
            assert(f.subrange(f0.len() as int, f.len() as int) =~= code@);
            assert(code@ =~= function_definition(*func, mid));
            reveal_strlit(" {\n");
            assert(code@.subrange(0, head.len() as int) =~= head);
            lemma_prefix_append(f0, code@);
            let f = self.ir.functions@;
            assert(f.subrange(f0.len() as int, (f0.len() + head.len()) as int) =~= head);
        }
    }
}

impl Codegen {
    /// The frame of the emission passes: counters only move forward and the
    /// registry stays well formed.
    pub open spec fn passed_from(&self, before: Self) -> bool {
        &&& self.wf()
        &&& self.var_count >= before.var_count
        &&& self.label_count >= before.label_count
        &&& self.arch == before.arch
        &&& self.diagnostics.error_count >= before.diagnostics.error_count
        &&& self.diagnostics.reported().len() >= before.diagnostics.reported().len()
    }

    /// Emits an impl method as `Struct_method`; an instance method takes
    /// `Struct* self` first. With `only_signatures` only its prototype is
    /// written, to the forward declarations.
    pub fn codegen_impl_method(&mut self, method: &ImplMethod, struct_name: &String, only_signatures: bool)
        requires
            old(self).wf(),
        ensures
            final(self).passed_from(*old(self)),
            only_signatures ==> final(self).ir.functions == old(self).ir.functions,
            only_signatures ==> occurs_in(
                encode_utf8(method_signature(struct_name@, *method) + ";\n"@),
                encode_utf8(final(self).ir.forward_decls@),
            ),
            final(self).impl_methods@.len() == old(self).impl_methods@.len() + 1,
            final(self).impl_methods@.drop_last() == old(self).impl_methods@,
            final(self).impl_methods@.last().0@ == struct_name@ + "."@ + method.name@,
            final(self).impl_methods@.last().1.return_type@ == method.return_type@,
            final(self).impl_methods@.last().1.is_instance == (method.self_modifier is Some),
            final(self).impl_methods@.last().1.params@.len() == method.params@.len(),
            forall|k: int| 0 <= k < method.params@.len() ==> #[trigger] final(self).impl_methods@.last().1.params@[k].0@
                == method.params@[k].0@,
            forall|k: int| 0 <= k < method.params@.len() ==> (#[trigger] final(self).impl_methods@.last().1.params@[k]).1@
                == method.params@[k].1@,
            !only_signatures ==> final(self).current_return_type is None,
            !only_signatures ==> exists|inner: Seq<char>| lowered_block(method.body@, inner) &&
                final(self).ir.functions@ == old(self).ir.functions@ + method_signature(struct_name@, *method) + " {\n"@ + inner
                    + return_tail(method.return_type@, inner) + "}\n\n"@,
            !only_signatures ==> final(self).vars@ == old(self).vars@,
    {
        self.ensure_string_typedef();
        let mut i: usize = 0;
        while i < method.params.len()
            invariant
                i <= method.params.len(),
                self.passed_from(*old(self)),
                self.ir.functions == old(self).ir.functions,
                self.impl_methods == old(self).impl_methods,
                self.vars == old(self).vars,
            decreases method.params.len() - i,
        {
            if method.params[i].1.is_void() {
                let msg = join4("Parameter '", method.params[i].0.as_str(), "' in method '", method.name.as_str());
                self.fail("VoidParameter", msg.as_str(), "Method parameters must have concrete types.");
            }
            i = i + 1;
        }
        let method_name = join3(struct_name.as_str(), "_", method.name.as_str());
        let mut reg: Vec<(String, Type)> = Vec::new();
        let mut k: usize = 0;
        while k < method.params.len()
            invariant
                k <= method.params.len(),
                reg@.len() == k,
                self.passed_from(*old(self)),
                self.ir.functions == old(self).ir.functions,
                self.impl_methods == old(self).impl_methods,
                self.vars == old(self).vars,
                forall|q: int| 0 <= q < k ==> (#[trigger] reg@[q]).0@ == method.params@[q].0@ && reg@[q].1@ == method.params@[q].1@,
            decreases method.params.len() - k,
        {
            reg.push((method.params[k].0.clone(), method.params[k].1.duplicate()));
            k = k + 1;
        }
        let is_instance = method.self_modifier.is_some();
        let key = join3(struct_name.as_str(), ".", method.name.as_str());
        let ghost f0 = self.ir.functions@;
        let ghost regv = reg@;
        self.impl_methods.push((key, MethodInfo { params: reg, return_type: method.return_type.duplicate(), is_instance }));
        let ghost im1 = self.impl_methods;
        proof {
            assert(self.impl_methods@.drop_last() =~= old(self).impl_methods@);
            assert(self.impl_methods@.last().1.params@ == regv);
            assert forall|k: int| 0 <= k < method.params@.len() implies #[trigger] self.impl_methods@.last().1.params@[k].0@
                == method.params@[k].0@ && self.impl_methods@.last().1.params@[k].1@ == method.params@[k].1@ by {
                assert(regv[k].0@ == method.params@[k].0@);
            }
        }
        let mut params = String::new();
        if is_instance {
            params.append(struct_name.as_str());
            params.append("* self");
            if method.params.len() > 0 {
                params.append(", ");
            }
        }
        params.append(self.method_params_text(&method.params).as_str());
        let mut sig = join3(method.return_type.to_c_type(&self.arch).as_str(), " ", method_name.as_str());
        sig.append("(");
        sig.append(params.as_str());
        sig.append(")");
        proof {
            assert(sig@ =~= method_signature(struct_name@, *method));
        }
        if only_signatures {
            self.ensure_type_defined(&method.return_type);
            self.define_all(&method.params);
            let mut line = sig.clone();
            line.append(";\n");
            let ghost fd0 = self.ir.forward_decls@;
            if !contains_text(self.ir.forward_decls.as_str(), line.as_str()) {
                self.ir.forward_decls.append(line.as_str());
                proof {
                    let d = self.ir.forward_decls@;
                    crate::text::lemma_encode_concat(fd0, line@);
                    let bl = encode_utf8(line@);
                    let bd = encode_utf8(d);
                    assert(bd =~= encode_utf8(fd0) + bl);
                    assert(bd.subrange(encode_utf8(fd0).len() as int, (encode_utf8(fd0).len() + bl.len()) as int) =~= bl);
                    assert(occurs_in(bl, bd));
                }
            }
            proof {
                assert(line@ =~= method_signature(struct_name@, *method) + ";\n"@);
                assert(self.impl_methods == im1);
                assert forall|k: int| 0 <= k < method.params@.len() implies #[trigger] self.impl_methods@.last().1.params@[k].0@
                    == method.params@[k].0@ && self.impl_methods@.last().1.params@[k].1@ == method.params@[k].1@ by {
                    assert(im1@.last().1.params@[k].0@ == method.params@[k].0@);
                }
                assert forall|k: int| 0 <= k < method.params@.len() implies (#[trigger] self.impl_methods@.last().1.params@[k]).1@
                    == method.params@[k].1@ by {
                    assert(im1@.last().1.params@ == regv);
                    assert(regv[k].1@ == method.params@[k].1@);
                }
            }
            return;
        }
        let vars_len = self.vars.len();
        let ghost vars0 = self.vars@;
        if is_instance {
            self.vars.push((text("self"), VarInfo { c_name: text("self"), ty: Type::Ptr(Box::new(Type::Struct { name: struct_name.clone() })) }));
        }
        let mut j: usize = 0;
        while j < method.params.len()
            invariant
                j <= method.params.len(),
                self.passed_from(*old(self)),
                self.impl_methods == im1,
                self.ir.functions@ == f0,
                vars_len == vars0.len(),
                vars0.is_prefix_of(self.vars@),
            decreases method.params.len() - j,
        {
            let p = &method.params[j];
            self.vars.push((p.0.clone(), VarInfo { c_name: p.0.clone(), ty: p.1.duplicate() }));
            j = j + 1;
        }
        self.current_return_type = Some(method.return_type.duplicate());
        let mut code = sig.clone();
        code.append(" {\n");
        let mut body_code = String::new();
        let ghost mut pieces: Seq<Seq<char>> = Seq::empty();
        let mut b: usize = 0;
        while b < method.body.len()
            invariant
                b <= method.body.len(),
                self.passed_from(*old(self)),
                self.impl_methods == im1,
                self.ir.functions@ == f0,
                code@ == method_signature(struct_name@, *method) + " {\n"@,
                vars_len == vars0.len(),
                vars0.is_prefix_of(self.vars@),
                pieces.len() == b,
                forall|j: int| 0 <= j < b ==> #[trigger] crate::statements::piece_fits(method.body@[j], pieces[j]),
                body_code@ == crate::statements::concat_pieces(pieces),
            decreases method.body.len() - b,
        {
            let ghost vb = self.vars@;
            let ghost before_code = body_code@;
            let _ = self.codegen_stmt(&method.body[b], &mut body_code);
            proof {
                let piece = body_code@.subrange(before_code.len() as int, body_code@.len() as int);
                assert(body_code@ =~= before_code + piece);
                let old_pieces = pieces;
                pieces = pieces.push(piece);
                assert(pieces.drop_last() =~= old_pieces);
                assert(body_code@ =~= crate::statements::concat_pieces(pieces));
            }
            proof {
                crate::lowering::lemma_prefix_trans_any(vars0, vb, self.vars@);
            }
            b = b + 1;
        }
        self.current_return_type = None;
        self.vars.truncate(vars_len);
        proof {
            assert(self.vars@ =~= vars0);
        }
        let ghost mid = body_code@;
        proof {
            assert(lowered_block(method.body@, mid));
        }
        code.append(body_code.as_str());
        if method.return_type.is_void() && !contains_text(body_code.as_str(), "return") {
            code.append("    return;\n");
        }
        let ghost head = method_signature(struct_name@, *method) + " {\n"@;
        proof {
            assert(code@ =~= head + mid + return_tail(method.return_type@, mid));
        }
        code.append("}\n\n");
        self.ir.functions.append(code.as_str());
        proof {
            assert(self.ir.functions@ =~= old(self).ir.functions@ + method_signature(struct_name@, *method) + " {\n"@ + mid
                + return_tail(method.return_type@, mid) + "}\n\n"@);
            assert(self.impl_methods == im1);
            assert forall|k: int| 0 <= k < method.params@.len() implies #[trigger] self.impl_methods@.last().1.params@[k].0@
                == method.params@[k].0@ && self.impl_methods@.last().1.params@[k].1@ == method.params@[k].1@ by {
                assert(im1@.last().1.params@[k].0@ == method.params@[k].0@);
            }
            assert forall|k: int| 0 <= k < method.params@.len() implies (#[trigger] self.impl_methods@.last().1.params@[k]).1@
                == method.params@[k].1@ by {
                assert(im1@.last().1.params@ == regv);
                assert(regv[k].1@ == method.params@[k].1@);
            }
        }
    }

    /// Emits the methods of an impl block; the struct must be defined.
    pub fn codegen_impl_block(&mut self, impl_block: &ImplBlock, only_signatures: bool) -> (r: Result<(), ()>)
        requires
            old(self).wf(),
        ensures
            final(self).passed_from(*old(self)),
            only_signatures ==> final(self).ir.functions == old(self).ir.functions,
            !only_signatures ==> old(self).ir.functions@.is_prefix_of(final(self).ir.functions@),
            r is Ok,
            latest(old(self).structs@, impl_block.struct_name@) is None ==> final(self).diagnostics.reported().len()
                > old(self).diagnostics.reported().len() && final(self).diagnostics.error_count > 0,
            latest(old(self).structs@, impl_block.struct_name@) is None && old(self).diagnostics.error_count < usize::MAX
                ==> final(self).diagnostics.error_count >= old(self).diagnostics.error_count + 1,
            final(self).impl_methods@.len() == old(self).impl_methods@.len() + impl_block.methods@.len(),
            forall|j: int| 0 <= j < impl_block.methods@.len() ==> #[trigger] final(self).impl_methods@[old(self).impl_methods@.len() + j].0@
                == impl_block.struct_name@ + "."@ + impl_block.methods@[j].name@,
    {
        if find_latest(&self.structs, impl_block.struct_name.as_str()).is_none() {
            let msg = join3("Struct '", impl_block.struct_name.as_str(), "' is not defined");
            self.fail("E0412", msg.as_str(), "Define the struct before this impl block.");
        }
        let ghost start = *self;
        let ghost n0 = old(self).impl_methods@.len();
        let mut i: usize = 0;
        while i < impl_block.methods.len()
            invariant
                i <= impl_block.methods.len(),
                self.passed_from(*old(self)),
                self.diagnostics.error_count >= start.diagnostics.error_count,
                self.diagnostics.reported().len() >= start.diagnostics.reported().len(),
                start.diagnostics.reported().len() >= old(self).diagnostics.reported().len(),
                latest(old(self).structs@, impl_block.struct_name@) is None ==> start.diagnostics.reported().len()
                    > old(self).diagnostics.reported().len() && start.diagnostics.error_count > 0,
                latest(old(self).structs@, impl_block.struct_name@) is None && old(self).diagnostics.error_count < usize::MAX
                    ==> start.diagnostics.error_count >= old(self).diagnostics.error_count + 1,
                n0 == old(self).impl_methods@.len(),
                self.impl_methods@.len() == n0 + i,
                forall|j: int| 0 <= j < i ==> #[trigger] self.impl_methods@[n0 + j].0@
                    == impl_block.struct_name@ + "."@ + impl_block.methods@[j].name@,
                only_signatures ==> self.ir.functions == old(self).ir.functions,
                !only_signatures ==> old(self).ir.functions@.is_prefix_of(self.ir.functions@),
            decreases impl_block.methods.len() - i,
        {
            let ghost before = self.impl_methods@;
            let ghost fb = self.ir.functions@;
            self.codegen_impl_method(&impl_block.methods[i], &impl_block.struct_name, only_signatures);
            proof {
                assert forall|j: int| 0 <= j < i + 1 implies #[trigger] self.impl_methods@[n0 + j].0@
                    == impl_block.struct_name@ + "."@ + impl_block.methods@[j].name@ by {
                    if j < i {
                        assert(self.impl_methods@[n0 + j] == self.impl_methods@.drop_last()[n0 + j]);
                        assert(before[n0 + j] == self.impl_methods@[n0 + j]);
                    }
                }
                if !only_signatures {
                    let m = impl_block.methods@[i as int];
                    let inner = choose|inner: Seq<char>| self.ir.functions@ == fb + method_signature(impl_block.struct_name@, m) + " {\n"@ + inner
                        + return_tail(m.return_type@, inner) + "}\n\n"@;
                    let added = method_signature(impl_block.struct_name@, m) + " {\n"@ + inner + return_tail(m.return_type@, inner) + "}\n\n"@;
                    crate::lowering::lemma_prefix_append(fb, added);
                    assert(self.ir.functions@ =~= fb + added);
                    crate::lowering::lemma_prefix_trans(old(self).ir.functions@, fb, self.ir.functions@);
                }
            }
            i = i + 1;
        }
        Ok(())
    }

    fn extern_signature(&mut self, name: &String, params: &Vec<(String, Type)>, return_type: &Type)
        requires
            old(self).wf(),
        ensures
            final(self).passed_from(*old(self)),
            final(self).ir.functions == old(self).ir.functions,
    {
        let mut line = join3(return_type.to_c_type(&self.arch).as_str(), " ", name.as_str());
        line.append("(");
        let mut i: usize = 0;
        while i < params.len()
            invariant
                i <= params.len(),
            decreases params.len() - i,
        {
            if i > 0 {
                line.append(", ");
            }
            line.append(params[i].1.to_c_type(&self.arch).as_str());
            line.append(" ");
            line.append(params[i].0.as_str());
            i = i + 1;
        }
        line.append(");\n");
        let mut info_params: Vec<(String, Type)> = Vec::new();
        let mut k: usize = 0;
        while k < params.len()
            invariant
                k <= params.len(),
            decreases params.len() - k,
        {
            info_params.push((params[k].0.clone(), params[k].1.duplicate()));
            k = k + 1;
        }
        self.user_functions.push((name.clone(), FunctionInfo { params: info_params, return_type: return_type.duplicate() }));
        if !contains_text(self.ir.forward_decls.as_str(), line.as_str()) {
            self.ir.forward_decls.append(line.as_str());
        }
    }

    /// Declares the functions implemented outside the program.
    pub fn codegen_externs(&mut self, externs: &Vec<ExternDecl>) -> (r: Result<(), ()>)
        requires
            old(self).wf(),
        ensures
            final(self).passed_from(*old(self)),
            final(self).ir.functions == old(self).ir.functions,
            r is Ok,
    {
        let mut i: usize = 0;
        while i < externs.len()
            invariant
                i <= externs.len(),
                self.passed_from(*old(self)),
                self.ir.functions == old(self).ir.functions,
            decreases externs.len() - i,
        {
            match &externs[i] {
                ExternDecl::Single { func } => self.extern_signature(&func.name, &func.params, &func.return_type),
                ExternDecl::Block { functions } => {
                    let mut j: usize = 0;
                    while j < functions.len()
                        invariant
                            j <= functions.len(),
                            self.passed_from(*old(self)),
                            self.ir.functions == old(self).ir.functions,
                        decreases functions.len() - j,
                    {
                        self.extern_signature(&functions[j].name, &functions[j].params, &functions[j].return_type);
                        j = j + 1;
                    }
                },
            }
            i = i + 1;
        }
        Ok(())
    }

    /// Lowers the body of every function, in order.
    pub fn codegen_program(&mut self, functions: &Vec<Function>) -> (r: Result<(), ()>)
        requires
            old(self).wf(),
        ensures
            final(self).passed_from(*old(self)),
            r is Ok,
            old(self).ir.functions@.is_prefix_of(final(self).ir.functions@),
            forall|k: int| 0 <= k < functions@.len() ==> occurs_in(function_signature(#[trigger] functions@[k]) + " {\n"@, final(self).ir.functions@),            exists|defs: Seq<Seq<char>>|
                defs.len() == functions@.len() && (forall|k: int| 0 <= k < defs.len() ==> is_definition_of(#[trigger] functions@[k], defs[k]))
                    && final(self).ir.functions@ == old(self).ir.functions@ + crate::statements::concat_pieces(defs),
    {
        let mut i: usize = 0;
        let ghost mut defs: Seq<Seq<char>> = Seq::empty();
        proof {
            crate::lowering::lemma_prefix_append(self.ir.functions@, Seq::empty());
            assert(self.ir.functions@ + Seq::<char>::empty() =~= self.ir.functions@);
            assert(self.ir.functions@ =~= old(self).ir.functions@ + crate::statements::concat_pieces(defs));
        }
        while i < functions.len()
            invariant
                i <= functions.len(),
                self.passed_from(*old(self)),
                defs.len() == i,
                forall|k: int| 0 <= k < i ==> is_definition_of(#[trigger] functions@[k], defs[k]),
                self.ir.functions@ == old(self).ir.functions@ + crate::statements::concat_pieces(defs),
                forall|k: int| 0 <= k < i ==> occurs_in(function_signature(#[trigger] functions@[k]) + " {\n"@, self.ir.functions@),
                old(self).ir.functions@.is_prefix_of(self.ir.functions@),
            decreases functions.len() - i,
        {
            let ghost fb = self.ir.functions@;
            self.codegen_function(&functions[i], false);
            proof {
                let d = self.ir.functions@.subrange(fb.len() as int, self.ir.functions@.len() as int);
                assert(self.ir.functions@ =~= fb + d);
                let old_defs = defs;
                defs = defs.push(d);
                assert(defs.drop_last() =~= old_defs);
                assert(self.ir.functions@ =~= old(self).ir.functions@ + crate::statements::concat_pieces(defs));
                let head = function_signature(functions@[i as int]) + " {\n"@;
                reveal_strlit(" {\n");
                assert(head.len() == function_signature(functions@[i as int]).len() + 3);
                assert(self.ir.functions@.subrange(fb.len() as int, (fb.len() + head.len()) as int) == head);
                crate::text::lemma_occurs_at(head, self.ir.functions@, fb.len() as int);
                crate::lowering::lemma_prefix_trans(old(self).ir.functions@, fb, self.ir.functions@);
                assert forall|k: int| 0 <= k < i + 1 implies occurs_in(function_signature(#[trigger] functions@[k]) + " {\n"@, self.ir.functions@) by {
                    if k < i {
                        crate::text::lemma_occurs_extend(function_signature(functions@[k]) + " {\n"@, fb, self.ir.functions@);
                    }
                }
            }
            i = i + 1;
        }
        Ok(())
    }

    /// The finished C unit, unless an error was reported.
    pub fn finalize(self) -> (r: Result<String, ()>)
        ensures
            self.diagnostics.error_count > 0 <==> r is Err,
            r is Ok ==> r->Ok_0@ == crate::ir::unit_text(self.ir.headers@, self.ir.forward_decls@, self.ir.functions@),
    {
        if self.diagnostics.has_errors() {
            Err(())
        } else {
            Ok(self.ir.finalize())
        }
    }

    /// Emits a whole compilation unit. Library includes go to the headers and
    /// library prototypes with parameters to the forward declarations; then
    /// structs and enums; then, in a first pass, every signature; then, in a
    /// second pass, every body; and last a C `main` that calls `vix_main`.
    pub fn codegen_program_full(
        &mut self,
        program: &Program,
        structs: &Vec<StructDef>,
        enums: &Vec<EnumDef>,
        impls: &Vec<ImplBlock>,
        externs: &Vec<ExternDecl>,
        library_includes: &Vec<String>,
        library_functions: &Vec<LibrarySignature>,
    ) -> (r: Result<String, String>)
        requires
            old(self).wf(),
        ensures
            final(self).passed_from(*old(self)),
            r is Ok <==> final(self).diagnostics.error_count == 0,
            r is Ok ==> r->Ok_0@ == crate::ir::unit_text(final(self).ir.headers@, final(self).ir.forward_decls@, final(self).ir.functions@),
            r is Ok ==> final(self).ir.functions@.len() >= main_shim().len() && final(self).ir.functions@.subrange(
                final(self).ir.functions@.len() - main_shim().len(),
                final(self).ir.functions@.len() as int,
            ) == main_shim(),
            r is Ok ==> forall|k: int| 0 <= k < program.functions@.len() ==> occurs_in(function_signature(#[trigger] program.functions@[k]) + " {\n"@, final(self).ir.functions@),
    {
        let mut i: usize = 0;
        while i < library_includes.len()
            invariant
                i <= library_includes.len(),
                self.passed_from(*old(self)),
            decreases library_includes.len() - i,
        {
            self.ir.headers.append(library_includes[i].as_str());
            self.ir.headers.append("\n");
            i = i + 1;
        }
        let mut f: usize = 0;
        while f < library_functions.len()
            invariant
                f <= library_functions.len(),
                self.passed_from(*old(self)),
            decreases library_functions.len() - f,
        {
            let sig = &library_functions[f];
            if sig.parameters.len() > 0 {
                let mut line = join3(sig.return_type.as_str(), " ", sig.name.as_str());
                line.append("(");
                let mut k: usize = 0;
                while k < sig.parameters.len()
                    invariant
                        k <= sig.parameters.len(),
                    decreases sig.parameters.len() - k,
                {
                    if k > 0 {
                        line.append(", ");
                    }
                    line.append(sig.parameters[k].1.as_str());
                    line.append(" ");
                    line.append(sig.parameters[k].0.as_str());
                    k = k + 1;
                }
                line.append(");\n");
                self.ir.forward_decls.append(line.as_str());
            }
            f = f + 1;
        }
        let mut s: usize = 0;
        while s < structs.len()
            invariant
                s <= structs.len(),
                self.passed_from(*old(self)),
            decreases structs.len() - s,
        {
            let _ = self.codegen_struct_definition(&structs[s]);
            s = s + 1;
        }
        let mut e: usize = 0;
        while e < enums.len()
            invariant
                e <= enums.len(),
                self.passed_from(*old(self)),
            decreases enums.len() - e,
        {
            let _ = self.codegen_enum_definition(&enums[e]);
            e = e + 1;
        }
        let mut a: usize = 0;
        while a < program.functions.len()
            invariant
                a <= program.functions.len(),
                self.passed_from(*old(self)),
            decreases program.functions.len() - a,
        {
            self.codegen_function(&program.functions[a], true);
            a = a + 1;
        }
        let mut b: usize = 0;
        while b < impls.len()
            invariant
                b <= impls.len(),
                self.passed_from(*old(self)),
            decreases impls.len() - b,
        {
            let _ = self.codegen_impl_block(&impls[b], true);
            b = b + 1;
        }
        let _ = self.codegen_externs(externs);
        let ghost f_start = self.ir.functions@;
        let mut c: usize = 0;
        proof {
            crate::lowering::lemma_prefix_append(self.ir.functions@, Seq::empty());
            assert(self.ir.functions@ + Seq::<char>::empty() =~= self.ir.functions@);
        }
        while c < program.functions.len()
            invariant
                c <= program.functions.len(),
                self.passed_from(*old(self)),
                f_start.is_prefix_of(self.ir.functions@),
                forall|k: int| 0 <= k < c ==> occurs_in(function_signature(#[trigger] program.functions@[k]) + " {\n"@, self.ir.functions@),
            decreases program.functions.len() - c,
        {
            let ghost fb = self.ir.functions@;
            self.codegen_function(&program.functions[c], false);
            proof {
                let head = function_signature(program.functions@[c as int]) + " {\n"@;
                reveal_strlit(" {\n");
                assert(head.len() == function_signature(program.functions@[c as int]).len() + 3);
                assert(self.ir.functions@.subrange(fb.len() as int, (fb.len() + head.len()) as int) == head);
                crate::text::lemma_occurs_at(head, self.ir.functions@, fb.len() as int);
                crate::lowering::lemma_prefix_trans(f_start, fb, self.ir.functions@);
                assert forall|k: int| 0 <= k < c + 1 implies occurs_in(function_signature(#[trigger] program.functions@[k]) + " {\n"@, self.ir.functions@) by {
                    if k < c {
                        crate::text::lemma_occurs_extend(function_signature(program.functions@[k]) + " {\n"@, fb, self.ir.functions@);
                    }
                }
            }
            c = c + 1;
        }
        let mut d: usize = 0;
        while d < impls.len()
            invariant
                d <= impls.len(),
                self.passed_from(*old(self)),
                forall|k: int| 0 <= k < program.functions@.len() ==> occurs_in(function_signature(#[trigger] program.functions@[k]) + " {\n"@, self.ir.functions@),
            decreases impls.len() - d,
        {
            let ghost fb = self.ir.functions@;
            let _ = self.codegen_impl_block(&impls[d], false);
            proof {
                assert forall|k: int| 0 <= k < program.functions@.len() implies occurs_in(function_signature(#[trigger] program.functions@[k]) + " {\n"@, self.ir.functions@) by {
                    crate::text::lemma_occurs_extend(function_signature(program.functions@[k]) + " {\n"@, fb, self.ir.functions@);
                }
            }
            d = d + 1;
        }
        if self.diagnostics.has_errors() {
            return Err(text("Code generation failed due to errors"));
        }
        let ghost fb = self.ir.functions@;
        self.ir.functions.append("\nint main() {\n    vix_main();\n    return 0;\n}\n");
        proof {
            crate::lowering::lemma_prefix_append(fb, main_shim());
            assert forall|k: int| 0 <= k < program.functions@.len() implies occurs_in(function_signature(#[trigger] program.functions@[k]) + " {\n"@, self.ir.functions@) by {
                crate::text::lemma_occurs_extend(function_signature(program.functions@[k]) + " {\n"@, fb, self.ir.functions@);
            }
        }
        let unit = IR {
            headers: self.ir.headers.clone(),
            forward_decls: self.ir.forward_decls.clone(),
            functions: self.ir.functions.clone(),
        };
        Ok(unit.finalize())
    }
}

} // verus!
