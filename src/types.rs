use vstd::prelude::*;
use crate::config::{align_step, tag_width, ArchConfig};
use crate::text::{dec, sanitize, sanitized, usize_text};

verus! {

/// A type of the source language.
#[derive(Debug)]
pub enum Type {
    Int { bits: usize, signed: bool },
    Float { bits: usize },
    Char { bits: usize, signed: bool },
    Bool,
    Void,
    Str { len_type: Box<Type> },
    ConstStr,
    StrSlice { char_type: Box<Type>, length_type: Box<Type> },
    Ptr(Box<Type>),
    RawPtr(Box<Type>),
    Owned(Box<Type>),
    Ref(Box<Type>),
    MutRef(Box<Type>),
    FnPtr { params: Vec<Type>, return_type: Box<Type> },
    Array { element: Box<Type>, size: Option<usize> },
    MultiArray { element: Box<Type>, dimensions: Vec<usize> },
    Tuple { fields: Vec<Type> },
    Struct { name: String },
    Union { variants: Vec<Type> },
    Option { inner: Box<Type> },
    Result { ok: Box<Type>, err: Box<Type> },
    Const(Box<Type>),
    SelfType,
    Any,
    Trait,
    Variadic,
    TripleDot,
    Intersection { types: Vec<Type> },
}

/// The mathematical value of a `Type`: the same tree, with sequences for
/// vectors and character sequences for names.
pub enum Ty {
    Int { bits: usize, signed: bool },
    Float { bits: usize },
    Char { bits: usize, signed: bool },
    Bool,
    Void,
    Str { len_type: Box<Ty> },
    ConstStr,
    StrSlice { char_type: Box<Ty>, length_type: Box<Ty> },
    Ptr(Box<Ty>),
    RawPtr(Box<Ty>),
    Owned(Box<Ty>),
    Ref(Box<Ty>),
    MutRef(Box<Ty>),
    FnPtr { params: Seq<Ty>, return_type: Box<Ty> },
    Array { element: Box<Ty>, size: Option<usize> },
    MultiArray { element: Box<Ty>, dimensions: Seq<usize> },
    Tuple { fields: Seq<Ty> },
    Struct { name: Seq<char> },
    Union { variants: Seq<Ty> },
    Option { inner: Box<Ty> },
    Result { ok: Box<Ty>, err: Box<Ty> },
    Const(Box<Ty>),
    SelfType,
    Any,
    Trait,
    Variadic,
    TripleDot,
    Intersection { types: Seq<Ty> },
}

pub open spec fn type_view(t: Type) -> Ty
    decreases t,
{
    match t {
        Type::Int { bits, signed } => Ty::Int { bits, signed },
        Type::Float { bits } => Ty::Float { bits },
        Type::Char { bits, signed } => Ty::Char { bits, signed },
        Type::Bool => Ty::Bool,
        Type::Void => Ty::Void,
        Type::Str { len_type } => Ty::Str { len_type: Box::new(type_view(*len_type)) },
        Type::ConstStr => Ty::ConstStr,
        Type::StrSlice { char_type, length_type } => Ty::StrSlice {
            char_type: Box::new(type_view(*char_type)),
            length_type: Box::new(type_view(*length_type)),
        },
        Type::Ptr(i) => Ty::Ptr(Box::new(type_view(*i))),
        Type::RawPtr(i) => Ty::RawPtr(Box::new(type_view(*i))),
        Type::Owned(i) => Ty::Owned(Box::new(type_view(*i))),
        Type::Ref(i) => Ty::Ref(Box::new(type_view(*i))),
        Type::MutRef(i) => Ty::MutRef(Box::new(type_view(*i))),
        Type::FnPtr { params, return_type } => Ty::FnPtr {
            params: type_views(params@),
            return_type: Box::new(type_view(*return_type)),
        },
        Type::Array { element, size } => Ty::Array { element: Box::new(type_view(*element)), size },
        Type::MultiArray { element, dimensions } => Ty::MultiArray {
            element: Box::new(type_view(*element)),
            dimensions: dimensions@,
        },
        Type::Tuple { fields } => Ty::Tuple { fields: type_views(fields@) },
        Type::Struct { name } => Ty::Struct { name: name@ },
        Type::Union { variants } => Ty::Union { variants: type_views(variants@) },
        Type::Option { inner } => Ty::Option { inner: Box::new(type_view(*inner)) },
        Type::Result { ok, err } => Ty::Result {
            ok: Box::new(type_view(*ok)),
            err: Box::new(type_view(*err)),
        },
        Type::Const(i) => Ty::Const(Box::new(type_view(*i))),
        Type::SelfType => Ty::SelfType,
        Type::Any => Ty::Any,
        Type::Trait => Ty::Trait,
        Type::Variadic => Ty::Variadic,
        Type::TripleDot => Ty::TripleDot,
        Type::Intersection { types } => Ty::Intersection { types: type_views(types@) },
    }
}

pub open spec fn type_views(s: Seq<Type>) -> Seq<Ty>
    decreases s,
{
    if s.len() == 0 {
        Seq::empty()
    } else {
        type_views(s.drop_last()).push(type_view(s.last()))
    }
}

impl View for Type {
    type V = Ty;

    open spec fn view(&self) -> Ty {
        type_view(*self)
    }
}

pub proof fn lemma_type_views(s: Seq<Type>)
    ensures
        type_views(s).len() == s.len(),
        forall|i: int| 0 <= i < s.len() ==> #[trigger] type_views(s)[i] == s[i]@,
    decreases s.len(),
{
    if s.len() > 0 {
        lemma_type_views(s.drop_last());
    }
}

pub open spec fn max_nat(a: nat, b: nat) -> nat {
    if a >= b {
        a
    } else {
        b
    }
}

/// Size in bits of a value of type `t` on the target `a`.
pub open spec fn size_ty(t: Ty, a: ArchConfig) -> nat
    decreases t,
{
    match t {
        Ty::ConstStr => a.pointer_bits as nat,
        Ty::Const(i) => size_ty(*i, a),
        Ty::Intersection { types } => max_size(types, a),
        Ty::TripleDot => 0,
        Ty::Int { bits, .. } => bits as nat,
        Ty::Float { bits } => bits as nat,
        Ty::Char { bits, .. } => bits as nat,
        Ty::Bool => 8,
        Ty::Void => 0,
        Ty::Variadic => 0,
        Ty::Ptr(_) => a.pointer_bits as nat,
        Ty::RawPtr(_) => a.pointer_bits as nat,
        Ty::FnPtr { .. } => a.pointer_bits as nat,
        Ty::Str { len_type } => (a.pointer_bits as nat) + size_ty(*len_type, a),
        Ty::StrSlice { length_type, .. } => (a.pointer_bits as nat) + size_ty(*length_type, a),
        Ty::Struct { .. } => a.pointer_bits as nat,
        Ty::Array { element, size } => match size {
            Option::Some(n) => size_ty(*element, a) * (n as nat),
            Option::None => 2 * (a.pointer_bits as nat),
        },
        Ty::Tuple { fields } => sum_size(fields, a),
        Ty::Option { inner } => 8 + size_ty(*inner, a),
        Ty::SelfType => 10,
        Ty::Any => a.pointer_bits as nat,
        Ty::Trait => a.pointer_bits as nat,
        Ty::Owned(_) => a.pointer_bits as nat,
        Ty::Ref(_) => a.pointer_bits as nat,
        Ty::MutRef(_) => a.pointer_bits as nat,
        Ty::Union { variants } => tag_width(variants.len() as int) as nat + max_size(variants, a),
        Ty::MultiArray { element, dimensions } => size_ty(*element, a) * dims_product(dimensions),
        Ty::Result { ok, err } => 8 + max_nat(size_ty(*ok, a), size_ty(*err, a)),
    }
}

/// Sum of the sizes of the types in `s`.
pub open spec fn sum_size(s: Seq<Ty>, a: ArchConfig) -> nat
    decreases s,
{
    if s.len() == 0 {
        0
    } else {
        sum_size(s.drop_last(), a) + size_ty(s.last(), a)
    }
}

/// Largest size among the types in `s`, 0 when there is none.
pub open spec fn max_size(s: Seq<Ty>, a: ArchConfig) -> nat
    decreases s,
{
    if s.len() == 0 {
        0
    } else {
        max_nat(max_size(s.drop_last(), a), size_ty(s.last(), a))
    }
}

/// Number of elements of a multi-dimensional array.
pub open spec fn dims_product(d: Seq<usize>) -> nat
    decreases d.len(),
{
    if d.len() == 0 {
        1
    } else {
        dims_product(d.drop_last()) * (d.last() as nat)
    }
}

/// Sizes can be computed in `usize`: every size met on the way, and every
/// partial product of array dimensions, fits.
pub open spec fn size_fits(t: Ty, a: ArchConfig) -> bool
    decreases t,
{
    &&& size_ty(t, a) <= usize::MAX
    &&& match t {
        Ty::Const(i) => size_fits(*i, a),
        Ty::Intersection { types } => all_fit(types, a),
        Ty::Str { len_type } => size_fits(*len_type, a),
        Ty::StrSlice { length_type, .. } => size_fits(*length_type, a),
        Ty::Array { element, size } => size_fits(*element, a),
        Ty::Tuple { fields } => all_fit(fields, a),
        Ty::Option { inner } => size_fits(*inner, a),
        Ty::Union { variants } => all_fit(variants, a),
        Ty::MultiArray { element, dimensions } => size_fits(*element, a) && (forall|i: int|
            0 <= i <= dimensions.len() ==> #[trigger] dims_product(dimensions.subrange(0, i))
                <= usize::MAX),
        Ty::Result { ok, err } => size_fits(*ok, a) && size_fits(*err, a),
        _ => true,
    }
}

pub open spec fn all_fit(s: Seq<Ty>, a: ArchConfig) -> bool
    decreases s,
{
    if s.len() == 0 {
        true
    } else {
        all_fit(s.drop_last(), a) && size_fits(s.last(), a)
    }
}

/// Alignment in bytes of a value of type `t` on the target `a`.
pub open spec fn align_ty(t: Ty, a: ArchConfig) -> nat
    decreases t,
{
    match t {
        Ty::ConstStr => a.pointer_align as nat,
        Ty::Const(i) => align_ty(*i, a),
        Ty::Intersection { types } => max_align(types, a),
        Ty::TripleDot => 1,
        Ty::Int { bits, .. } => align_step(bits as int) as nat,
        Ty::Float { bits } => align_step(bits as int) as nat,
        Ty::Char { bits, .. } => align_step(bits as int) as nat,
        Ty::Bool => 1,
        Ty::Void => 1,
        Ty::Variadic => 1,
        Ty::Ptr(_) => a.pointer_align as nat,
        Ty::RawPtr(_) => a.pointer_align as nat,
        Ty::FnPtr { .. } => a.pointer_align as nat,
        Ty::Str { .. } => a.pointer_align as nat,
        Ty::StrSlice { .. } => a.pointer_align as nat,
        Ty::Struct { .. } => a.pointer_align as nat,
        Ty::Array { element, .. } => align_ty(*element, a),
        Ty::MultiArray { element, .. } => align_ty(*element, a),
        Ty::Tuple { fields } => max_align(fields, a),
        Ty::Union { variants } => max_align(variants, a),
        Ty::Option { inner } => max_nat(align_ty(*inner, a), 1),
        Ty::Result { ok, err } => max_nat(max_nat(align_ty(*ok, a), align_ty(*err, a)), 1),
        Ty::SelfType => 10,
        Ty::Any => a.pointer_align as nat,
        Ty::Trait => a.pointer_align as nat,
        Ty::Owned(_) => a.pointer_align as nat,
        Ty::Ref(_) => a.pointer_align as nat,
        Ty::MutRef(_) => a.pointer_align as nat,
    }
}

/// Largest alignment among the types in `s`, 1 when there is none.
pub open spec fn max_align(s: Seq<Ty>, a: ArchConfig) -> nat
    decreases s,
{
    if s.len() == 0 {
        1
    } else {
        max_nat(max_align(s.drop_last(), a), align_ty(s.last(), a))
    }
}


pub proof fn lemma_all_fit(s: Seq<Ty>, a: ArchConfig, i: int)
    requires
        all_fit(s, a),
        0 <= i < s.len(),
    ensures
        size_fits(s[i], a),
    decreases s.len(),
{
    if i < s.len() - 1 {
        lemma_all_fit(s.drop_last(), a, i);
    }
}

pub proof fn lemma_sum_prefix(s: Seq<Ty>, a: ArchConfig, i: int)
    requires
        0 <= i <= s.len(),
    ensures
        sum_size(s.subrange(0, i), a) <= sum_size(s, a),
    decreases s.len(),
{
    if i == s.len() {
        assert(s.subrange(0, i) =~= s);
    } else {
        lemma_sum_prefix(s.drop_last(), a, i);
        assert(s.drop_last().subrange(0, i) =~= s.subrange(0, i));
    }
}

pub proof fn lemma_max_prefix(s: Seq<Ty>, a: ArchConfig, i: int)
    requires
        0 <= i <= s.len(),
    ensures
        max_size(s.subrange(0, i), a) <= max_size(s, a),
    decreases s.len(),
{
    if i == s.len() {
        assert(s.subrange(0, i) =~= s);
    } else {
        lemma_max_prefix(s.drop_last(), a, i);
        assert(s.drop_last().subrange(0, i) =~= s.subrange(0, i));
    }
}

/// Largest size among `v`, computed element by element.
fn sizes_max(v: &Vec<Type>, arch: &ArchConfig) -> (r: usize)
    requires
        all_fit(type_views(v@), *arch),
        max_size(type_views(v@), *arch) <= usize::MAX,
    ensures
        r == max_size(type_views(v@), *arch),
    decreases v,
{
    let ghost s = type_views(v@);
    proof {
        lemma_type_views(v@);
    }
    let mut acc: usize = 0;
    let mut i: usize = 0;
    while i < v.len()
        invariant
            s == type_views(v@),
            s.len() == v@.len(),
            forall|j: int| 0 <= j < v@.len() ==> #[trigger] s[j] == v@[j]@,
            all_fit(s, *arch),
            max_size(s, *arch) <= usize::MAX,
            i <= v.len(),
            acc == max_size(s.subrange(0, i as int), *arch),
        decreases v.len() - i,
    {
        proof {
            lemma_all_fit(s, *arch, i as int);
            assert(s.subrange(0, i + 1).drop_last() =~= s.subrange(0, i as int));
            lemma_max_prefix(s, *arch, i + 1);
        }
        let x = v[i].size_bits(arch);
        if x > acc {
            acc = x;
        }
        i = i + 1;
    }
    proof {
        assert(s.subrange(0, i as int) =~= s);
    }
    acc
}

/// Sum of the sizes of `v`.
fn sizes_sum(v: &Vec<Type>, arch: &ArchConfig) -> (r: usize)
    requires
        all_fit(type_views(v@), *arch),
        sum_size(type_views(v@), *arch) <= usize::MAX,
    ensures
        r == sum_size(type_views(v@), *arch),
    decreases v,
{
    let ghost s = type_views(v@);
    proof {
        lemma_type_views(v@);
    }
    let mut acc: usize = 0;
    let mut i: usize = 0;
    while i < v.len()
        invariant
            s == type_views(v@),
            s.len() == v@.len(),
            forall|j: int| 0 <= j < v@.len() ==> #[trigger] s[j] == v@[j]@,
            all_fit(s, *arch),
            sum_size(s, *arch) <= usize::MAX,
            i <= v.len(),
            acc == sum_size(s.subrange(0, i as int), *arch),
        decreases v.len() - i,
    {
        proof {
            lemma_all_fit(s, *arch, i as int);
            assert(s.subrange(0, i + 1).drop_last() =~= s.subrange(0, i as int));
            lemma_sum_prefix(s, *arch, i + 1);
        }
        let x = v[i].size_bits(arch);
        acc = acc + x;
        i = i + 1;
    }
    proof {
        assert(s.subrange(0, i as int) =~= s);
    }
    acc
}

/// Largest alignment among `v`, at least 1.
fn aligns_max(v: &Vec<Type>, arch: &ArchConfig) -> (r: usize)
    requires
        arch.wf(),
    ensures
        r == max_align(type_views(v@), *arch),
    decreases v,
{
    let ghost s = type_views(v@);
    proof {
        lemma_type_views(v@);
    }
    let mut acc: usize = 1;
    let mut i: usize = 0;
    while i < v.len()
        invariant
            arch.wf(),
            s == type_views(v@),
            s.len() == v@.len(),
            forall|j: int| 0 <= j < v@.len() ==> #[trigger] s[j] == v@[j]@,
            i <= v.len(),
            acc == max_align(s.subrange(0, i as int), *arch),
        decreases v.len() - i,
    {
        proof {
            assert(s.subrange(0, i + 1).drop_last() =~= s.subrange(0, i as int));
        }
        let x = v[i].alignment(arch);
        if x > acc {
            acc = x;
        }
        i = i + 1;
    }
    proof {
        assert(s.subrange(0, i as int) =~= s);
    }
    acc
}

pub proof fn lemma_align_bounded(t: Ty, a: ArchConfig)
    requires
        a.wf(),
    ensures
        1 <= align_ty(t, a) <= 16,
    decreases t,
{
    match t {
        Ty::Const(i) => lemma_align_bounded(*i, a),
        Ty::Intersection { types } => lemma_max_align_bounded(types, a),
        Ty::Array { element, .. } => lemma_align_bounded(*element, a),
        Ty::MultiArray { element, .. } => lemma_align_bounded(*element, a),
        Ty::Tuple { fields } => lemma_max_align_bounded(fields, a),
        Ty::Union { variants } => lemma_max_align_bounded(variants, a),
        Ty::Option { inner } => lemma_align_bounded(*inner, a),
        Ty::Result { ok, err } => {
            lemma_align_bounded(*ok, a);
            lemma_align_bounded(*err, a);
        },
        _ => {},
    }
}

pub proof fn lemma_max_align_bounded(s: Seq<Ty>, a: ArchConfig)
    requires
        a.wf(),
    ensures
        1 <= max_align(s, a) <= 16,
    decreases s,
{
    if s.len() > 0 {
        lemma_max_align_bounded(s.drop_last(), a);
        lemma_align_bounded(s.last(), a);
    }
}

impl Type {
    /// Size in bits of a value of this type.
    pub fn size_bits(&self, arch: &ArchConfig) -> (r: usize)
        requires
            size_fits(self@, *arch),
        ensures
            r == size_ty(self@, *arch),
        decreases self,
    {
        match self {
            Type::ConstStr => arch.pointer_bits,
            Type::Const(inner) => inner.size_bits(arch),
            Type::Intersection { types } => sizes_max(types, arch),
            Type::TripleDot => 0,
            Type::Int { bits, .. } => *bits,
            Type::Float { bits } => *bits,
            Type::Char { bits, .. } => *bits,
            Type::Bool => 8,
            Type::Void => 0,
            Type::Variadic => 0,
            Type::Ptr(_) => arch.pointer_bits,
            Type::RawPtr(_) => arch.pointer_bits,
            Type::FnPtr { .. } => arch.pointer_bits,
            Type::Str { len_type } => arch.pointer_bits + len_type.size_bits(arch),
            Type::StrSlice { length_type, .. } => arch.pointer_bits + length_type.size_bits(arch),
            Type::Struct { .. } => arch.pointer_bits,
            Type::Array { element, size } => match size {
                Some(n) => element.size_bits(arch) * *n,
                None => arch.pointer_bits + arch.pointer_bits,
            },
            Type::Tuple { fields } => sizes_sum(fields, arch),
            Type::Option { inner } => 8 + inner.size_bits(arch),
            Type::SelfType => 10,
            Type::Any => arch.pointer_bits,
            Type::Trait => arch.pointer_bits,
            Type::Owned(_) => arch.pointer_bits,
            Type::Ref(_) => arch.pointer_bits,
            Type::MutRef(_) => arch.pointer_bits,
            Type::Union { variants } => {
                let tag = arch.tag_bits_for_variants(variants.len());
                proof {
                    lemma_type_views(variants@);
                }
                tag + sizes_max(variants, arch)
            },
            Type::MultiArray { element, dimensions } => {
                let ghost d = dimensions@;
                let mut total: usize = 1;
                let mut i: usize = 0;
                proof {
                    assert(d.subrange(0, 0) =~= Seq::<usize>::empty());
                }
                while i < dimensions.len()
                    invariant
                        d == dimensions@,
                        i <= d.len(),
                        total == dims_product(d.subrange(0, i as int)),
                        forall|k: int|
                            0 <= k <= d.len() ==> #[trigger] dims_product(d.subrange(0, k))
                                <= usize::MAX,
                    decreases d.len() - i,
                {
                    proof {
                        assert(d.subrange(0, i + 1).drop_last() =~= d.subrange(0, i as int));
                        assert(dims_product(d.subrange(0, i + 1)) <= usize::MAX);
                    }
                    total = total * dimensions[i];
                    i = i + 1;
                }
                proof {
                    assert(d.subrange(0, i as int) =~= d);
                }
                element.size_bits(arch) * total
            },
            Type::Result { ok, err } => {
                let a = ok.size_bits(arch);
                let b = err.size_bits(arch);
                if a >= b {
                    8 + a
                } else {
                    8 + b
                }
            },
        }
    }

    /// Alignment in bytes of a value of this type.
    pub fn alignment(&self, arch: &ArchConfig) -> (r: usize)
        requires
            arch.wf(),
        ensures
            r == align_ty(self@, *arch),
        decreases self,
    {
        proof {
            lemma_align_bounded(self@, *arch);
        }
        match self {
            Type::ConstStr => arch.pointer_align,
            Type::Const(inner) => inner.alignment(arch),
            Type::Intersection { types } => aligns_max(types, arch),
            Type::TripleDot => 1,
            Type::Int { bits, .. } => arch.alignment_for_bits(*bits),
            Type::Float { bits } => arch.alignment_for_bits(*bits),
            Type::Char { bits, .. } => arch.alignment_for_bits(*bits),
            Type::Bool => 1,
            Type::Void => 1,
            Type::Variadic => 1,
            Type::Ptr(_) => arch.pointer_align,
            Type::RawPtr(_) => arch.pointer_align,
            Type::FnPtr { .. } => arch.pointer_align,
            Type::Str { .. } => arch.pointer_align,
            Type::StrSlice { .. } => arch.pointer_align,
            Type::Struct { .. } => arch.pointer_align,
            Type::Array { element, .. } => element.alignment(arch),
            Type::MultiArray { element, .. } => element.alignment(arch),
            Type::Tuple { fields } => aligns_max(fields, arch),
            Type::Union { variants } => aligns_max(variants, arch),
            Type::Option { inner } => {
                let x = inner.alignment(arch);
                if x >= 1 {
                    x
                } else {
                    1
                }
            },
            Type::Result { ok, err } => {
                let x = ok.alignment(arch);
                let y = err.alignment(arch);
                let m = if x >= y {
                    x
                } else {
                    y
                };
                if m >= 1 {
                    m
                } else {
                    1
                }
            },
            Type::SelfType => 10,
            Type::Any => arch.pointer_align,
            Type::Trait => arch.pointer_align,
            Type::Owned(_) => arch.pointer_align,
            Type::Ref(_) => arch.pointer_align,
            Type::MutRef(_) => arch.pointer_align,
        }
    }
}

/// The structural name of a type: its printable form, used in messages and
/// as the source of C identifiers.
pub open spec fn name_ty(t: Ty) -> Seq<char>
    decreases t,
{
    match t {
        Ty::ConstStr => "const str"@,
        Ty::Const(i) => "const "@ + name_ty(*i),
        Ty::TripleDot => "..."@,
        Ty::Int { bits, signed } => if signed {
            "int"@ + dec(bits as nat)
        } else {
            "uint"@ + dec(bits as nat)
        },
        Ty::Float { bits } => "float"@ + dec(bits as nat),
        Ty::Bool => "bool"@,
        Ty::Char { bits, .. } => if bits == 8 {
            "char"@
        } else if bits == 32 {
            "char32"@
        } else {
            "char"@ + dec(bits as nat)
        },
        Ty::Void => "void"@,
        Ty::Ptr(i) => "*"@ + name_ty(*i),
        Ty::RawPtr(i) => "^"@ + name_ty(*i),
        Ty::Str { .. } => "str"@,
        Ty::StrSlice { .. } => "str"@,
        Ty::Struct { name } => name,
        Ty::Array { element, size } => match size {
            Option::Some(n) => name_ty(*element) + "["@ + dec(n as nat) + "]"@,
            Option::None => name_ty(*element) + "[]"@,
        },
        Ty::SelfType => "Self"@,
        Ty::Option { inner } => "Option<"@ + name_ty(*inner) + ">"@,
        Ty::Result { ok, err } => "Result<"@ + name_ty(*ok) + ", "@ + name_ty(*err) + ">"@,
        Ty::Variadic => "..."@,
        Ty::Any => "any"@,
        Ty::Trait => "trait"@,
        Ty::Owned(i) => "~"@ + name_ty(*i),
        Ty::Ref(i) => "&"@ + name_ty(*i),
        Ty::MutRef(i) => "&mut "@ + name_ty(*i),
        Ty::Intersection { types } => "("@ + join_names(types, " & "@) + ")"@,
        Ty::MultiArray { element, dimensions } => name_ty(*element) + dims_text(dimensions),
        Ty::Tuple { fields } => "("@ + join_names(fields, ", "@) + ")"@,
        Ty::Union { variants } => "("@ + join_names(variants, " | "@) + ")"@,
        Ty::FnPtr { params, return_type } => "fn("@ + join_names(params, ", "@) + ") -> "@
            + name_ty(*return_type),
    }
}

/// The names of `s`, separated by `sep`.
pub open spec fn join_names(s: Seq<Ty>, sep: Seq<char>) -> Seq<char>
    decreases s,
{
    if s.len() == 0 {
        Seq::empty()
    } else if s.len() == 1 {
        name_ty(s[0])
    } else {
        join_names(s.drop_last(), sep) + sep + name_ty(s.last())
    }
}

/// Each dimension written as `[n]`, one after the other.
pub open spec fn dims_text(d: Seq<usize>) -> Seq<char>
    decreases d.len(),
{
    if d.len() == 0 {
        Seq::empty()
    } else {
        dims_text(d.drop_last()) + "["@ + dec(d.last() as nat) + "]"@
    }
}

/// The C spelling of a type.
pub open spec fn ctype_ty(t: Ty) -> Seq<char>
    decreases t,
{
    match t {
        Ty::Const(i) => "const "@ + ctype_ty(*i),
        Ty::Int { bits, signed } => if bits == 128 {
            if signed {
                "__int128"@
            } else {
                "unsigned __int128"@
            }
        } else if signed {
            "int"@ + dec(bits as nat) + "_t"@
        } else {
            "uint"@ + dec(bits as nat) + "_t"@
        },
        Ty::Float { bits } => if bits == 32 {
            "float"@
        } else if bits == 64 {
            "double"@
        } else if bits == 128 {
            "long double"@
        } else {
            "_Float"@ + dec(bits as nat)
        },
        Ty::Char { bits, .. } => if bits == 8 {
            "char"@
        } else {
            "uint"@ + dec(bits as nat) + "_t"@
        },
        Ty::SelfType => "Self"@,
        Ty::Bool => "bool"@,
        Ty::Void => "void"@,
        Ty::Ptr(i) => ctype_ty(*i) + "*"@,
        Ty::RawPtr(i) => ctype_ty(*i) + "*"@,
        Ty::ConstStr => "const char*"@,
        Ty::Str { .. } => "String"@,
        Ty::StrSlice { char_type, length_type } => "struct { "@ + ctype_ty(*char_type) + "* ptr; "@
            + ctype_ty(*length_type) + " len; }"@,
        Ty::Struct { name } => name,
        Ty::Array { element, size } => match size {
            Option::Some(_) => ctype_ty(*element),
            Option::None => "struct { "@ + ctype_ty(*element) + "* ptr; size_t len; }"@,
        },
        Ty::Intersection { types } => if types.len() > 0 {
            ctype_ty(types[0])
        } else {
            "void"@
        },
        Ty::TripleDot => "..."@,
        Ty::MultiArray { element, .. } => ctype_ty(*element),
        Ty::Variadic => "..."@,
        Ty::Any => "void*"@,
        Ty::Trait => "void*"@,
        Ty::Owned(i) => ctype_ty(*i) + "*"@,
        Ty::Ref(i) => ctype_ty(*i) + "*"@,
        Ty::MutRef(i) => ctype_ty(*i) + "*"@,
        Ty::FnPtr { params, return_type } => ctype_ty(*return_type) + " (*)("@ + join_ctypes(
            params,
        ) + ")"@,
        Ty::Tuple { fields } => "Tuple_"@ + join_ids(fields),
        Ty::Union { variants } => "Union_"@ + join_ids(variants),
        Ty::Option { inner } => "Option_"@ + sanitized(name_ty(*inner)),
        Ty::Result { ok, err } => "Result_"@ + sanitized(name_ty(*ok)) + "_"@ + sanitized(
            name_ty(*err),
        ),
    }
}

/// The C spellings of `s`, separated by `", "`.
pub open spec fn join_ctypes(s: Seq<Ty>) -> Seq<char>
    decreases s,
{
    if s.len() == 0 {
        Seq::empty()
    } else if s.len() == 1 {
        ctype_ty(s[0])
    } else {
        join_ctypes(s.drop_last()) + ", "@ + ctype_ty(s.last())
    }
}

/// The identifiers made from the names of `s`, separated by `_`.
pub open spec fn join_ids(s: Seq<Ty>) -> Seq<char>
    decreases s.len(),
{
    if s.len() == 0 {
        Seq::empty()
    } else if s.len() == 1 {
        sanitized(name_ty(s[0]))
    } else {
        join_ids(s.drop_last()) + "_"@ + sanitized(name_ty(s.last()))
    }
}

/// The names of `v`, separated by `sep`.
fn names_joined(v: &Vec<Type>, sep: &str) -> (r: String)
    ensures
        r@ == join_names(type_views(v@), sep@),
    decreases v,
{
    let ghost s = type_views(v@);
    proof {
        lemma_type_views(v@);
    }
    let mut out = String::new();
    let mut i: usize = 0;
    while i < v.len()
        invariant
            s == type_views(v@),
            s.len() == v@.len(),
            forall|j: int| 0 <= j < v@.len() ==> #[trigger] s[j] == v@[j]@,
            i <= v.len(),
            out@ == join_names(s.subrange(0, i as int), sep@),
        decreases v.len() - i,
    {
        proof {
            assert(s.subrange(0, i + 1).drop_last() =~= s.subrange(0, i as int));
        }
        if i > 0 {
            out.append(sep);
        }
        let n = v[i].name();
        out.append(n.as_str());
        i = i + 1;
        proof {
            if i == 1 {
                assert(out@ =~= name_ty(s[0]));
            }
        }
    }
    proof {
        assert(s.subrange(0, i as int) =~= s);
    }
    out
}

/// The C spellings of `v`, separated by `", "`.
fn ctypes_joined(v: &Vec<Type>, arch: &ArchConfig) -> (r: String)
    ensures
        r@ == join_ctypes(type_views(v@)),
    decreases v,
{
    let ghost s = type_views(v@);
    proof {
        lemma_type_views(v@);
    }
    let mut out = String::new();
    let mut i: usize = 0;
    while i < v.len()
        invariant
            s == type_views(v@),
            s.len() == v@.len(),
            forall|j: int| 0 <= j < v@.len() ==> #[trigger] s[j] == v@[j]@,
            i <= v.len(),
            out@ == join_ctypes(s.subrange(0, i as int)),
        decreases v.len() - i,
    {
        proof {
            assert(s.subrange(0, i + 1).drop_last() =~= s.subrange(0, i as int));
        }
        if i > 0 {
            out.append(", ");
        }
        let n = v[i].to_c_type(arch);
        out.append(n.as_str());
        i = i + 1;
        proof {
            if i == 1 {
                assert(out@ =~= ctype_ty(s[0]));
            }
        }
    }
    proof {
        assert(s.subrange(0, i as int) =~= s);
    }
    out
}

/// The identifiers made from the names of `v`, separated by `_`.
pub fn ids_joined(v: &Vec<Type>) -> (r: String)
    ensures
        r@ == join_ids(type_views(v@)),
{
    let ghost s = type_views(v@);
    proof {
        lemma_type_views(v@);
    }
    let mut out = String::new();
    let mut i: usize = 0;
    while i < v.len()
        invariant
            s == type_views(v@),
            s.len() == v@.len(),
            forall|j: int| 0 <= j < v@.len() ==> #[trigger] s[j] == v@[j]@,
            i <= v.len(),
            out@ == join_ids(s.subrange(0, i as int)),
        decreases v.len() - i,
    {
        proof {
            assert(s.subrange(0, i + 1).drop_last() =~= s.subrange(0, i as int));
        }
        if i > 0 {
            out.append("_");
        }
        let n = v[i].name();
        let id = sanitize(n.as_str());
        out.append(id.as_str());
        i = i + 1;
        proof {
            if i == 1 {
                assert(out@ =~= sanitized(name_ty(s[0])));
            }
        }
    }
    proof {
        assert(s.subrange(0, i as int) =~= s);
    }
    out
}

fn dims_written(d: &Vec<usize>) -> (r: String)
    ensures
        r@ == dims_text(d@),
{
    let mut out = String::new();
    let mut i: usize = 0;
    while i < d.len()
        invariant
            i <= d.len(),
            out@ == dims_text(d@.subrange(0, i as int)),
        decreases d.len() - i,
    {
        proof {
            assert(d@.subrange(0, i + 1).drop_last() =~= d@.subrange(0, i as int));
        }
        out.append("[");
        let n = usize_text(d[i]);
        out.append(n.as_str());
        out.append("]");
        i = i + 1;
    }
    proof {
        assert(d@.subrange(0, i as int) =~= d@);
    }
    out
}

fn cat2(a: &str, b: &str) -> (r: String)
    ensures
        r@ == a@ + b@,
{
    let mut s = String::from_str(a);
    s.append(b);
    s
}

fn cat3(a: &str, b: &str, c: &str) -> (r: String)
    ensures
        r@ == a@ + b@ + c@,
{
    let mut s = String::from_str(a);
    s.append(b);
    s.append(c);
    s
}

impl Type {
    /// The structural name of this type.
    pub fn name(&self) -> (r: String)
        ensures
            r@ == name_ty(self@),
        decreases self,
    {
        match self {
            Type::ConstStr => String::from_str("const str"),
            Type::Const(i) => cat2("const ", i.name().as_str()),
            Type::TripleDot => String::from_str("..."),
            Type::Int { bits, signed } => if *signed {
                cat2("int", usize_text(*bits).as_str())
            } else {
                cat2("uint", usize_text(*bits).as_str())
            },
            Type::Float { bits } => cat2("float", usize_text(*bits).as_str()),
            Type::Bool => String::from_str("bool"),
            Type::Char { bits, .. } => if *bits == 8 {
                String::from_str("char")
            } else if *bits == 32 {
                String::from_str("char32")
            } else {
                cat2("char", usize_text(*bits).as_str())
            },
            Type::Void => String::from_str("void"),
            Type::Ptr(i) => cat2("*", i.name().as_str()),
            Type::RawPtr(i) => cat2("^", i.name().as_str()),
            Type::Str { .. } => String::from_str("str"),
            Type::StrSlice { .. } => String::from_str("str"),
            Type::Struct { name } => name.clone(),
            Type::Array { element, size } => match size {
                Some(n) => {
                    let mut s = element.name();
                    s.append("[");
                    s.append(usize_text(*n).as_str());
                    s.append("]");
                    s
                },
                None => {
                    let mut s = element.name();
                    s.append("[]");
                    s
                },
            },
            Type::SelfType => String::from_str("Self"),
            Type::Option { inner } => cat3("Option<", inner.name().as_str(), ">"),
            Type::Result { ok, err } => {
                let mut s = cat3("Result<", ok.name().as_str(), ", ");
                s.append(err.name().as_str());
                s.append(">");
                s
            },
            Type::Variadic => String::from_str("..."),
            Type::Any => String::from_str("any"),
            Type::Trait => String::from_str("trait"),
            Type::Owned(i) => cat2("~", i.name().as_str()),
            Type::Ref(i) => cat2("&", i.name().as_str()),
            Type::MutRef(i) => cat2("&mut ", i.name().as_str()),
            Type::Intersection { types } => cat3("(", names_joined(types, " & ").as_str(), ")"),
            Type::MultiArray { element, dimensions } => {
                let mut s = element.name();
                s.append(dims_written(dimensions).as_str());
                s
            },
            Type::Tuple { fields } => cat3("(", names_joined(fields, ", ").as_str(), ")"),
            Type::Union { variants } => cat3("(", names_joined(variants, " | ").as_str(), ")"),
            Type::FnPtr { params, return_type } => {
                let mut s = cat3("fn(", names_joined(params, ", ").as_str(), ") -> ");
                s.append(return_type.name().as_str());
                s
            },
        }
    }

    /// The C spelling of this type.
    pub fn to_c_type(&self, arch: &ArchConfig) -> (r: String)
        ensures
            r@ == ctype_ty(self@),
        decreases self,
    {
        match self {
            Type::Const(i) => cat2("const ", i.to_c_type(arch).as_str()),
            Type::Int { bits, signed } => if *bits == 128 {
                if *signed {
                    String::from_str("__int128")
                } else {
                    String::from_str("unsigned __int128")
                }
            } else if *signed {
                cat3("int", usize_text(*bits).as_str(), "_t")
            } else {
                cat3("uint", usize_text(*bits).as_str(), "_t")
            },
            Type::Float { bits } => if *bits == 32 {
                String::from_str("float")
            } else if *bits == 64 {
                String::from_str("double")
            } else if *bits == 128 {
                String::from_str("long double")
            } else {
                cat2("_Float", usize_text(*bits).as_str())
            },
            Type::Char { bits, .. } => if *bits == 8 {
                String::from_str("char")
            } else {
                cat3("uint", usize_text(*bits).as_str(), "_t")
            },
            Type::SelfType => String::from_str("Self"),
            Type::Bool => String::from_str("bool"),
            Type::Void => String::from_str("void"),
            Type::Ptr(i) => cat2(i.to_c_type(arch).as_str(), "*"),
            Type::RawPtr(i) => cat2(i.to_c_type(arch).as_str(), "*"),
            Type::ConstStr => String::from_str("const char*"),
            Type::Str { .. } => String::from_str("String"),
            Type::StrSlice { char_type, length_type } => {
                let mut s = cat3("struct { ", char_type.to_c_type(arch).as_str(), "* ptr; ");
                s.append(length_type.to_c_type(arch).as_str());
                s.append(" len; }");
                s
            },
            Type::Struct { name } => name.clone(),
            Type::Array { element, size } => match size {
                Some(_) => element.to_c_type(arch),
                None => cat3(
                    "struct { ",
                    element.to_c_type(arch).as_str(),
                    "* ptr; size_t len; }",
                ),
            },
            Type::Intersection { types } => {
                proof {
                    lemma_type_views(types@);
                }
                if types.len() > 0 {
                    types[0].to_c_type(arch)
                } else {
                    String::from_str("void")
                }
            },
            Type::TripleDot => String::from_str("..."),
            Type::MultiArray { element, .. } => element.to_c_type(arch),
            Type::Variadic => String::from_str("..."),
            Type::Any => String::from_str("void*"),
            Type::Trait => String::from_str("void*"),
            Type::Owned(i) => cat2(i.to_c_type(arch).as_str(), "*"),
            Type::Ref(i) => cat2(i.to_c_type(arch).as_str(), "*"),
            Type::MutRef(i) => cat2(i.to_c_type(arch).as_str(), "*"),
            Type::FnPtr { params, return_type } => {
                let mut s = cat3(
                    return_type.to_c_type(arch).as_str(),
                    " (*)(",
                    ctypes_joined(params, arch).as_str(),
                );
                s.append(")");
                s
            },
            Type::Tuple { fields } => cat2("Tuple_", ids_joined(fields).as_str()),
            Type::Union { variants } => cat2("Union_", ids_joined(variants).as_str()),
            Type::Option { inner } => cat2("Option_", sanitize(inner.name().as_str()).as_str()),
            Type::Result { ok, err } => {
                let mut s = cat3(
                    "Result_",
                    sanitize(ok.name().as_str()).as_str(),
                    "_",
                );
                s.append(sanitize(err.name().as_str()).as_str());
                s
            },
        }
    }
}

/// A copy of every type in `v`.
pub fn copy_types(v: &Vec<Type>) -> (r: Vec<Type>)
    ensures
        type_views(r@) == type_views(v@),
    decreases v,
{
    let mut out: Vec<Type> = Vec::new();
    let mut i: usize = 0;
    while i < v.len()
        invariant
            i <= v.len(),
            type_views(out@) == type_views(v@.subrange(0, i as int)),
        decreases v.len() - i,
    {
        let x = v[i].duplicate();
        let ghost before = out@;
        out.push(x);
        proof {
            assert(out@.drop_last() =~= before);
            assert(v@.subrange(0, i + 1).drop_last() =~= v@.subrange(0, i as int));
        }
        i = i + 1;
    }
    proof {
        assert(v@.subrange(0, i as int) =~= v@);
    }
    out
}

fn copy_dims(v: &Vec<usize>) -> (r: Vec<usize>)
    ensures
        r@ == v@,
{
    let mut out: Vec<usize> = Vec::new();
    let mut i: usize = 0;
    while i < v.len()
        invariant
            i <= v.len(),
            out@ == v@.subrange(0, i as int),
        decreases v.len() - i,
    {
        out.push(v[i]);
        i = i + 1;
        proof {
            assert(out@ =~= v@.subrange(0, i as int));
        }
    }
    proof {
        assert(v@.subrange(0, i as int) =~= v@);
    }
    out
}

/// Structural name injectivity of identifiers: types with the same
/// structural name get the same C identifier.
pub proof fn lemma_same_name_same_identifier(t1: Ty, t2: Ty)
    requires
        name_ty(t1) == name_ty(t2),
    ensures
        sanitized(name_ty(t1)) == sanitized(name_ty(t2)),
        ctype_ty(Ty::Option { inner: Box::new(t1) }) == ctype_ty(
            Ty::Option { inner: Box::new(t2) },
        ),
{
}

/// Size law: an option adds an 8-bit tag to its payload, a tuple is the sum
/// of its components, and a result adds an 8-bit tag to the larger side.
pub proof fn lemma_size_law(t: Ty, fields: Seq<Ty>, ok: Ty, err: Ty, a: ArchConfig)
    ensures
        size_ty(Ty::Option { inner: Box::new(t) }, a) == 8 + size_ty(t, a),
        size_ty(Ty::Tuple { fields }, a) == sum_size(fields, a),
        fields.len() > 0 ==> size_ty(Ty::Tuple { fields }, a) == size_ty(
            Ty::Tuple { fields: fields.drop_last() },
            a,
        ) + size_ty(fields.last(), a),
        size_ty(Ty::Result { ok: Box::new(ok), err: Box::new(err) }, a) == 8 + max_nat(
            size_ty(ok, a),
            size_ty(err, a),
        ),
{
    assert(size_ty(Ty::Tuple { fields }, a) == sum_size(fields, a));
    if fields.len() > 0 {
        assert(sum_size(fields, a) == sum_size(fields.drop_last(), a) + size_ty(fields.last(), a));
        assert(size_ty(Ty::Tuple { fields: fields.drop_last() }, a) == sum_size(fields.drop_last(), a));
    }
}

/// Alignment law: a compound is aligned as its most aligned component, and
/// at least to 1 byte, which is also the alignment of void.
pub proof fn lemma_alignment_law(fields: Seq<Ty>, t: Ty, ok: Ty, err: Ty, a: ArchConfig)
    requires
        a.wf(),
    ensures
        align_ty(Ty::Void, a) == 1,
        align_ty(Ty::Tuple { fields }, a) == max_align(fields, a),
        align_ty(Ty::Union { variants: fields }, a) == max_align(fields, a),
        forall|i: int|
            0 <= i < fields.len() ==> align_ty(#[trigger] fields[i], a) <= align_ty(
                Ty::Tuple { fields },
                a,
            ),
        fields.len() == 0 ==> align_ty(Ty::Tuple { fields }, a) == 1,
        align_ty(Ty::Option { inner: Box::new(t) }, a) == align_ty(t, a),
        align_ty(Ty::Result { ok: Box::new(ok), err: Box::new(err) }, a) == max_nat(
            align_ty(ok, a),
            align_ty(err, a),
        ),
{
    lemma_align_bounded(t, a);
    lemma_align_bounded(ok, a);
    lemma_align_bounded(err, a);
    lemma_max_align_ge(fields, a);
}

pub proof fn lemma_max_align_ge(s: Seq<Ty>, a: ArchConfig)
    ensures
        forall|i: int| 0 <= i < s.len() ==> align_ty(#[trigger] s[i], a) <= max_align(s, a),
    decreases s.len(),
{
    if s.len() > 0 {
        lemma_max_align_ge(s.drop_last(), a);
        assert forall|i: int| 0 <= i < s.len() implies align_ty(#[trigger] s[i], a) <= max_align(
            s,
            a,
        ) by {
            if i < s.len() - 1 {
                assert(s[i] == s.drop_last()[i]);
            }
        }
    }
}

impl Type {
    /// A deep copy of this type.
    pub fn duplicate(&self) -> (r: Type)
        ensures
            r@ == self@,
        decreases self,
    {
        match self {
            Type::Int { bits, signed } => Type::Int { bits: *bits, signed: *signed },
            Type::Float { bits } => Type::Float { bits: *bits },
            Type::Char { bits, signed } => Type::Char { bits: *bits, signed: *signed },
            Type::Bool => Type::Bool,
            Type::Void => Type::Void,
            Type::Str { len_type } => Type::Str { len_type: Box::new(len_type.duplicate()) },
            Type::ConstStr => Type::ConstStr,
            Type::StrSlice { char_type, length_type } => Type::StrSlice {
                char_type: Box::new(char_type.duplicate()),
                length_type: Box::new(length_type.duplicate()),
            },
            Type::Ptr(i) => Type::Ptr(Box::new(i.duplicate())),
            Type::RawPtr(i) => Type::RawPtr(Box::new(i.duplicate())),
            Type::Owned(i) => Type::Owned(Box::new(i.duplicate())),
            Type::Ref(i) => Type::Ref(Box::new(i.duplicate())),
            Type::MutRef(i) => Type::MutRef(Box::new(i.duplicate())),
            Type::FnPtr { params, return_type } => Type::FnPtr {
                params: copy_types(params),
                return_type: Box::new(return_type.duplicate()),
            },
            Type::Array { element, size } => Type::Array {
                element: Box::new(element.duplicate()),
                size: match size {
                    Some(n) => Some(*n),
                    None => None,
                },
            },
            Type::MultiArray { element, dimensions } => Type::MultiArray {
                element: Box::new(element.duplicate()),
                dimensions: copy_dims(dimensions),
            },
            Type::Tuple { fields } => Type::Tuple { fields: copy_types(fields) },
            Type::Struct { name } => Type::Struct { name: name.clone() },
            Type::Union { variants } => Type::Union { variants: copy_types(variants) },
            Type::Option { inner } => Type::Option { inner: Box::new(inner.duplicate()) },
            Type::Result { ok, err } => Type::Result {
                ok: Box::new(ok.duplicate()),
                err: Box::new(err.duplicate()),
            },
            Type::Const(i) => Type::Const(Box::new(i.duplicate())),
            Type::SelfType => Type::SelfType,
            Type::Any => Type::Any,
            Type::Trait => Type::Trait,
            Type::Variadic => Type::Variadic,
            Type::TripleDot => Type::TripleDot,
            Type::Intersection { types } => Type::Intersection { types: copy_types(types) },
        }
    }

    pub fn is_void(&self) -> (r: bool)
        ensures
            r == (self@ is Void),
    {
        match self {
            Type::Void => true,
            _ => false,
        }
    }

    /// Whether this is one of the pointer-like types, which all become a C pointer.
    pub fn is_ptr(&self) -> (r: bool)
        ensures
            r == (self@ is Ptr || self@ is RawPtr || self@ is Owned || self@ is Ref
                || self@ is MutRef),
    {
        match self {
            Type::Ptr(_) | Type::RawPtr(_) | Type::Owned(_) | Type::Ref(_) | Type::MutRef(_) => true,
            _ => false,
        }
    }

    pub fn i8() -> (r: Self)
        ensures
            r@ == (Ty::Int { bits: 8, signed: true }),
    {
        Type::Int { bits: 8, signed: true }
    }

    pub fn i16() -> (r: Self)
        ensures
            r@ == (Ty::Int { bits: 16, signed: true }),
    {
        Type::Int { bits: 16, signed: true }
    }

    pub fn i32() -> (r: Self)
        ensures
            r@ == (Ty::Int { bits: 32, signed: true }),
    {
        Type::Int { bits: 32, signed: true }
    }

    pub fn i64() -> (r: Self)
        ensures
            r@ == (Ty::Int { bits: 64, signed: true }),
    {
        Type::Int { bits: 64, signed: true }
    }

    pub fn u8() -> (r: Self)
        ensures
            r@ == (Ty::Int { bits: 8, signed: false }),
    {
        Type::Int { bits: 8, signed: false }
    }

    pub fn u16() -> (r: Self)
        ensures
            r@ == (Ty::Int { bits: 16, signed: false }),
    {
        Type::Int { bits: 16, signed: false }
    }

    pub fn u32() -> (r: Self)
        ensures
            r@ == (Ty::Int { bits: 32, signed: false }),
    {
        Type::Int { bits: 32, signed: false }
    }

    pub fn u64() -> (r: Self)
        ensures
            r@ == (Ty::Int { bits: 64, signed: false }),
    {
        Type::Int { bits: 64, signed: false }
    }

    pub fn float32() -> (r: Self)
        ensures
            r@ == (Ty::Float { bits: 32 }),
    {
        Type::Float { bits: 32 }
    }

    pub fn float64() -> (r: Self)
        ensures
            r@ == (Ty::Float { bits: 64 }),
    {
        Type::Float { bits: 64 }
    }

    pub fn option(inner: Type) -> (r: Self)
        ensures
            r@ == (Ty::Option { inner: Box::new(inner@) }),
    {
        Type::Option { inner: Box::new(inner) }
    }

    pub fn result(ok: Type, err: Type) -> (r: Self)
        ensures
            r@ == (Ty::Result { ok: Box::new(ok@), err: Box::new(err@) }),
    {
        Type::Result { ok: Box::new(ok), err: Box::new(err) }
    }

    /// The C spelling of this type.
    pub fn c_str(&self, arch: &ArchConfig) -> (r: String)
        ensures
            r@ == ctype_ty(self@),
    {
        self.to_c_type(arch)
    }

    pub fn char32() -> (r: Self)
        ensures
            r@ == (Ty::Char { bits: 32, signed: false }),
    {
        Type::Char { bits: 32, signed: false }
    }

    pub fn char8() -> (r: Self)
        ensures
            r@ == (Ty::Char { bits: 8, signed: true }),
    {
        Type::Char { bits: 8, signed: true }
    }

    pub fn integer(bits: usize, signed: bool) -> (r: Self)
        ensures
            r@ == (Ty::Int { bits, signed }),
    {
        Type::Int { bits, signed }
    }

    pub fn float(bits: usize) -> (r: Self)
        ensures
            r@ == (Ty::Float { bits }),
    {
        Type::Float { bits }
    }

    pub fn str_slice(char_type: Type, length_type: Type) -> (r: Self)
        ensures
            r@ == (Ty::StrSlice {
                char_type: Box::new(char_type@),
                length_type: Box::new(length_type@),
            }),
    {
        Type::StrSlice { char_type: Box::new(char_type), length_type: Box::new(length_type) }
    }

    pub fn is_const(&self) -> (r: bool)
        ensures
            r == (self@ is Const),
    {
        match self {
            Type::Const(_) => true,
            _ => false,
        }
    }

    /// The type under one `const` modifier, or this type when it has none.
    pub fn unwrap_const(&self) -> (r: &Type)
        ensures
            self@ is Const ==> self@ == Ty::Const(Box::new(r@)),
            !(self@ is Const) ==> r == self,
    {
        match self {
            Type::Const(inner) => inner,
            other => other,
        }
    }

    pub fn make_const(self) -> (r: Type)
        ensures
            r@ == Ty::Const(Box::new(self@)),
    {
        Type::Const(Box::new(self))
    }
}

/// No array element, tuple component or union variant inside `t` is void.
pub open spec fn slots_void_free(t: Ty) -> bool
    decreases t,
{
    match t {
        Ty::Array { element, .. } => !(*element is Void) && slots_void_free(*element),
        Ty::MultiArray { element, .. } => !(*element is Void) && slots_void_free(*element),
        Ty::Tuple { fields } => all_declarable_seq(fields),
        Ty::Union { variants } => all_declarable_seq(variants),
        Ty::Intersection { types } => all_slots_free_seq(types),
        Ty::FnPtr { params, return_type } => slots_void_free(*return_type) && all_slots_free_seq(
            params,
        ),
        Ty::Option { inner } => slots_void_free(*inner),
        Ty::Result { ok, err } => slots_void_free(*ok) && slots_void_free(*err),
        Ty::Str { len_type } => slots_void_free(*len_type),
        Ty::StrSlice { char_type, length_type } => slots_void_free(*char_type) && slots_void_free(
            *length_type,
        ),
        Ty::Ptr(i) => slots_void_free(*i),
        Ty::RawPtr(i) => slots_void_free(*i),
        Ty::Owned(i) => slots_void_free(*i),
        Ty::Ref(i) => slots_void_free(*i),
        Ty::MutRef(i) => slots_void_free(*i),
        Ty::Const(i) => slots_void_free(*i),
        _ => true,
    }
}

/// Every type of `s` is declarable.
pub open spec fn all_declarable_seq(s: Seq<Ty>) -> bool
    decreases s,
{
    if s.len() == 0 {
        true
    } else {
        all_declarable_seq(s.drop_last()) && !(s.last() is Void) && slots_void_free(s.last())
    }
}

/// No type of `s` holds a void slot.
pub open spec fn all_slots_free_seq(s: Seq<Ty>) -> bool
    decreases s,
{
    if s.len() == 0 {
        true
    } else {
        all_slots_free_seq(s.drop_last()) && slots_void_free(s.last())
    }
}

/// A type that a variable, field or parameter may have: not void, and
/// holding no void element, component or variant.
pub open spec fn declarable(t: Ty) -> bool {
    !(t is Void) && slots_void_free(t)
}

proof fn lemma_declarable_prefix(s: Seq<Ty>, k: int)
    requires
        0 <= k <= s.len(),
    ensures
        all_declarable_seq(s) ==> all_declarable_seq(s.subrange(0, k)),
    decreases s.len(),
{
    if k == s.len() {
        assert(s.subrange(0, k) =~= s);
    } else {
        lemma_declarable_prefix(s.drop_last(), k);
        assert(s.drop_last().subrange(0, k) =~= s.subrange(0, k));
    }
}

proof fn lemma_slots_prefix(s: Seq<Ty>, k: int)
    requires
        0 <= k <= s.len(),
    ensures
        all_slots_free_seq(s) ==> all_slots_free_seq(s.subrange(0, k)),
    decreases s.len(),
{
    if k == s.len() {
        assert(s.subrange(0, k) =~= s);
    } else {
        lemma_slots_prefix(s.drop_last(), k);
        assert(s.drop_last().subrange(0, k) =~= s.subrange(0, k));
    }
}

/// Every type of `v` is declarable.
fn all_declarable(v: &Vec<Type>) -> (r: bool)
    ensures
        r == all_declarable_seq(type_views(v@)),
    decreases v,
{
    let ghost s = type_views(v@);
    proof {
        lemma_type_views(v@);
    }
    let mut i: usize = 0;
    while i < v.len()
        invariant
            s == type_views(v@),
            s.len() == v@.len(),
            forall|j: int| 0 <= j < v@.len() ==> #[trigger] s[j] == v@[j]@,
            i <= v.len(),
            all_declarable_seq(s.subrange(0, i as int)),
        decreases v.len() - i,
    {
        proof {
            assert(s.subrange(0, i + 1).drop_last() =~= s.subrange(0, i as int));
        }
        if v[i].is_void() || !v[i].slots_void_free() {
            proof {
                assert(!all_declarable_seq(s.subrange(0, i + 1)));
                lemma_declarable_prefix(s, i + 1);
            }
            return false;
        }
        i = i + 1;
    }
    proof {
        assert(s.subrange(0, i as int) =~= s);
    }
    true
}

/// No type of `v` holds a void slot.
fn all_slots_free(v: &Vec<Type>) -> (r: bool)
    ensures
        r == all_slots_free_seq(type_views(v@)),
    decreases v,
{
    let ghost s = type_views(v@);
    proof {
        lemma_type_views(v@);
    }
    let mut i: usize = 0;
    while i < v.len()
        invariant
            s == type_views(v@),
            s.len() == v@.len(),
            forall|j: int| 0 <= j < v@.len() ==> #[trigger] s[j] == v@[j]@,
            i <= v.len(),
            all_slots_free_seq(s.subrange(0, i as int)),
        decreases v.len() - i,
    {
        proof {
            assert(s.subrange(0, i + 1).drop_last() =~= s.subrange(0, i as int));
        }
        if !v[i].slots_void_free() {
            proof {
                assert(!all_slots_free_seq(s.subrange(0, i + 1)));
                lemma_slots_prefix(s, i + 1);
            }
            return false;
        }
        i = i + 1;
    }
    proof {
        assert(s.subrange(0, i as int) =~= s);
    }
    true
}

impl Type {
    /// Whether no array element, tuple component or union variant inside is void.
    pub fn slots_void_free(&self) -> (r: bool)
        ensures
            r == slots_void_free(self@),
        decreases self,
    {
        match self {
            Type::Array { element, .. } => !element.is_void() && element.slots_void_free(),
            Type::MultiArray { element, .. } => !element.is_void() && element.slots_void_free(),
            Type::Tuple { fields } => {
                let r = all_declarable(fields);
                proof {
                    lemma_type_views(fields@);
                }
                r
            },
            Type::Union { variants } => {
                let r = all_declarable(variants);
                proof {
                    lemma_type_views(variants@);
                }
                r
            },
            Type::Intersection { types } => all_slots_free(types),
            Type::FnPtr { params, return_type } => return_type.slots_void_free() && all_slots_free(params),
            Type::Option { inner } => inner.slots_void_free(),
            Type::Result { ok, err } => ok.slots_void_free() && err.slots_void_free(),
            Type::Str { len_type } => len_type.slots_void_free(),
            Type::StrSlice { char_type, length_type } => char_type.slots_void_free()
                && length_type.slots_void_free(),
            Type::Ptr(i) => i.slots_void_free(),
            Type::RawPtr(i) => i.slots_void_free(),
            Type::Owned(i) => i.slots_void_free(),
            Type::Ref(i) => i.slots_void_free(),
            Type::MutRef(i) => i.slots_void_free(),
            Type::Const(i) => i.slots_void_free(),
            _ => true,
        }
    }

    /// Whether a variable, field or parameter may have this type.
    pub fn is_declarable(&self) -> (r: bool)
        ensures
            r == declarable(self@),
    {
        !self.is_void() && self.slots_void_free()
    }
}

} // verus!
