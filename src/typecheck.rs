use vstd::prelude::*;
use crate::ast::{
    EnumDef, EnumVariant, Expr, ExternDecl, Function, ImplBlock, ImportDecl, MatchCase, ParamModifier,
    Program, SelfModifier, Stmt, StructDef, StructField,
};
use crate::borrow::BorrowTracker;
use crate::diagnostics::{
    borrow_conflict_error, join2, join3, join4, join5, return_type_mismatch_error, text,
    type_mismatch_error, undefined_function_error, undefined_variable_error, void_operation_error,
    void_variable_error, DiagnosticHandler, ErrorContext, SourceLocation,
};
use crate::text::{dec, usize_text};
use crate::types::{declarable, lemma_type_views, type_views, Ty, Type};

verus! {

/// What the checker knows of a callable: its parameters and result.
#[derive(Debug)]
pub struct FunctionSignature {
    pub params: Vec<(String, Type, ParamModifier)>,
    pub return_type: Type,
    pub location: SourceLocation,
    pub is_builtin: bool,
}

/// A field of a struct, as the checker sees it.
#[derive(Debug)]
pub struct FieldInfo {
    pub ty: Type,
    pub is_public: bool,
    pub is_mutable: bool,
}

/// The fields of a struct, by name.
#[derive(Debug)]
pub struct StructInfo {
    pub fields: Vec<(String, FieldInfo)>,
    pub location: SourceLocation,
}

#[derive(Debug)]
pub enum EnumVariantInfo {
    Simple,
    Tuple(Vec<Type>),
    Struct(Vec<(String, Type)>),
}

#[derive(Debug)]
pub struct EnumInfo {
    pub variants: Vec<(String, EnumVariantInfo)>,
    pub location: SourceLocation,
}

/// The latest entry named `n` in a table where later entries override earlier ones.
pub open spec fn latest<V>(tbl: Seq<(String, V)>, n: Seq<char>) -> Option<V>
    decreases tbl.len(),
{
    if tbl.len() == 0 {
        None
    } else if tbl.last().0@ == n {
        Some(tbl.last().1)
    } else {
        latest(tbl.drop_last(), n)
    }
}

/// Index of the latest entry named `n`.
pub fn find_latest<V>(tbl: &Vec<(String, V)>, n: &str) -> (r: Option<usize>)
    ensures
        match r {
            Some(i) => i < tbl@.len() && tbl@[i as int].0@ == n@ && latest(tbl@, n@) == Some(
                tbl@[i as int].1,
            ),
            None => latest(tbl@, n@) is None,
        },
{
    let key = String::from_str(n);
    let mut i: usize = tbl.len();
    proof {
        assert(tbl@.subrange(0, i as int) =~= tbl@);
    }
    while i > 0
        invariant
            key@ == n@,
            i <= tbl@.len(),
            latest(tbl@, n@) == latest(tbl@.subrange(0, i as int), n@),
        decreases i,
    {
        proof {
            assert(tbl@.subrange(0, i as int).drop_last() =~= tbl@.subrange(0, i - 1));
        }
        if tbl[i - 1].0 == key {
            return Some(i - 1);
        }
        i = i - 1;
    }
    None
}

/// The type of `n` in a stack of scopes, innermost first.
pub open spec fn scope_lookup(scopes: Seq<Vec<(String, Type)>>, n: Seq<char>) -> Option<Type>
    decreases scopes.len(),
{
    if scopes.len() == 0 {
        None
    } else {
        match latest(scopes.last()@, n) {
            Some(t) => Some(t),
            None => scope_lookup(scopes.drop_last(), n),
        }
    }
}

/// Scope discipline: a name bound in a scope that is then closed resolves
/// exactly as it did before that scope was opened.
pub proof fn lemma_scope_discipline(
    scopes: Seq<Vec<(String, Type)>>,
    inner: Vec<(String, Type)>,
    n: Seq<char>,
)
    ensures
        scope_lookup(scopes.push(inner).drop_last(), n) == scope_lookup(scopes, n),
        latest(inner@, n) is Some ==> scope_lookup(scopes.push(inner), n) == latest(inner@, n),
{
    assert(scopes.push(inner).drop_last() =~= scopes);
}

/// Whether values of `got` may stand where `expected` is required.
pub open spec fn compat(expected: Ty, got: Ty) -> bool
    decreases expected, got,
{
    if expected is Any || got is Any {
        true
    } else if let Ty::Const(e) = expected {
        compat(*e, got)
    } else if let Ty::Const(g) = got {
        compat(expected, *g)
    } else {
        match (expected, got) {
            (Ty::Int { bits: b1, signed: s1 }, Ty::Int { bits: b2, signed: s2 }) => b1 == b2 && s1
                == s2,
            (Ty::Float { bits: b1 }, Ty::Float { bits: b2 }) => b1 == b2,
            (Ty::Char { bits: b1, signed: s1 }, Ty::Char { bits: b2, signed: s2 }) => b1 == b2
                && s1 == s2,
            (Ty::Bool, Ty::Bool) => true,
            (Ty::Void, Ty::Void) => true,
            (Ty::SelfType, Ty::SelfType) => true,
            (Ty::ConstStr, Ty::ConstStr) => true,
            (Ty::ConstStr, Ty::Str { .. }) => true,
            (Ty::Str { .. }, Ty::ConstStr) => true,
            (Ty::Str { .. }, Ty::Str { .. }) => true,
            (Ty::Option { inner: e }, Ty::Option { inner: g }) => compat(*e, *g),
            (Ty::Result { ok: eo, err: ee }, Ty::Result { ok: go, err: ge }) => compat(*eo, *go)
                && compat(*ee, *ge),
            (Ty::Array { element: e, .. }, Ty::Array { element: g, .. }) => compat(*e, *g),
            (Ty::Tuple { fields: ef }, Ty::Tuple { fields: gf }) => ef.len() == gf.len() && (
            forall|i: int| 0 <= i < ef.len() ==> compat(#[trigger] ef[i], gf[i])),
            (Ty::Struct { name: n1 }, Ty::Struct { name: n2 }) => n1 == n2,
            (Ty::Ref(e), Ty::Ref(g)) => compat(*e, *g),
            (Ty::MutRef(e), Ty::MutRef(g)) => compat(*e, *g),
            (Ty::RawPtr(e), Ty::RawPtr(g)) => compat(*e, *g),
            (Ty::Ptr(e), Ty::Ptr(g)) => compat(*e, *g),
            (Ty::Owned(e), Ty::Owned(g)) => compat(*e, *g),
            _ => false,
        }
    }
}

/// Whether values of `got` may stand where `expected` is required.
pub fn types_compatible(expected: &Type, got: &Type) -> (r: bool)
    ensures
        r == compat(expected@, got@),
    decreases expected, got,
{
    if let Type::Any = expected {
        return true;
    }
    if let Type::Any = got {
        return true;
    }
    if let Type::Const(e) = expected {
        return types_compatible(e, got);
    }
    if let Type::Const(g) = got {
        return types_compatible(expected, g);
    }
    match (expected, got) {
        (Type::Int { bits: b1, signed: s1 }, Type::Int { bits: b2, signed: s2 }) => *b1 == *b2 && *s1
            == *s2,
        (Type::Float { bits: b1 }, Type::Float { bits: b2 }) => *b1 == *b2,
        (Type::Char { bits: b1, signed: s1 }, Type::Char { bits: b2, signed: s2 }) => *b1 == *b2
            && *s1 == *s2,
        (Type::Bool, Type::Bool) => true,
        (Type::Void, Type::Void) => true,
        (Type::SelfType, Type::SelfType) => true,
        (Type::ConstStr, Type::ConstStr) => true,
        (Type::ConstStr, Type::Str { .. }) => true,
        (Type::Str { .. }, Type::ConstStr) => true,
        (Type::Str { .. }, Type::Str { .. }) => true,
        (Type::Option { inner: e }, Type::Option { inner: g }) => types_compatible(e, g),
        (Type::Result { ok: eo, err: ee }, Type::Result { ok: go, err: ge }) => {
            let a = types_compatible(eo, go);
            let b = types_compatible(ee, ge);
            a && b
        },
        (Type::Array { element: e, .. }, Type::Array { element: g, .. }) => types_compatible(e, g),
        (Type::Tuple { fields: ef }, Type::Tuple { fields: gf }) => {
            proof {
                lemma_type_views(ef@);
                lemma_type_views(gf@);
            }
            if ef.len() != gf.len() {
                return false;
            }
            let ghost es = type_views(ef@);
            let ghost gs = type_views(gf@);
            let mut i: usize = 0;
            while i < ef.len()
                invariant
                    es == type_views(ef@),
                    gs == type_views(gf@),
                    *ef == expected->Tuple_fields,
                    *gf == got->Tuple_fields,
                    expected@ == (Ty::Tuple { fields: es }),
                    got@ == (Ty::Tuple { fields: gs }),
                    es.len() == ef@.len(),
                    gs.len() == gf@.len(),
                    ef@.len() == gf@.len(),
                    forall|j: int| 0 <= j < ef@.len() ==> #[trigger] es[j] == ef@[j]@,
                    forall|j: int| 0 <= j < gf@.len() ==> #[trigger] gs[j] == gf@[j]@,
                    i <= ef.len(),
                    forall|j: int| 0 <= j < i ==> compat(#[trigger] es[j], gs[j]),
                decreases ef.len() - i,
            {
                if !types_compatible(&ef[i], &gf[i]) {
                    proof {
                        assert(!compat(es[i as int], gs[i as int]));
                        assert(!(forall|j: int| 0 <= j < es.len() ==> compat(#[trigger] es[j], gs[j])));
                    }
                    return false;
                }
                i = i + 1;
            }
            true
        },
        (Type::Struct { name: n1 }, Type::Struct { name: n2 }) => *n1 == *n2,
        (Type::Ref(e), Type::Ref(g)) => types_compatible(e, g),
        (Type::MutRef(e), Type::MutRef(g)) => types_compatible(e, g),
        (Type::RawPtr(e), Type::RawPtr(g)) => types_compatible(e, g),
        (Type::Ptr(e), Type::Ptr(g)) => types_compatible(e, g),
        (Type::Owned(e), Type::Owned(g)) => types_compatible(e, g),
        _ => false,
    }
}

/// The symbol tables: later entries override earlier ones of the same name.
pub struct Symbols {
    pub functions: Vec<(String, FunctionSignature)>,
    pub builtin_functions: Vec<(String, FunctionSignature)>,
    pub imported_functions: Vec<(String, FunctionSignature)>,
    pub structs: Vec<(String, StructInfo)>,
    pub enums: Vec<(String, EnumInfo)>,
}

/// Comparison and logical operators, whose result is a boolean.
pub open spec fn is_comparison(op: Seq<char>) -> bool {
    op == "=="@ || op == "!="@ || op == "<"@ || op == ">"@ || op == "<="@ || op == ">="@ || op
        == "&&"@ || op == "||"@
}

/// The declared result of the callable `f`: a struct name is its constructor,
/// then the program's functions, the built-ins and the imports are searched.
pub open spec fn call_result(sym: Symbols, f: Seq<char>) -> Ty {
    if latest(sym.structs@, f) is Some {
        Ty::Struct { name: f }
    } else if latest(sym.functions@, f) is Some {
        latest(sym.functions@, f)->0.return_type@
    } else if latest(sym.builtin_functions@, f) is Some {
        latest(sym.builtin_functions@, f)->0.return_type@
    } else if latest(sym.imported_functions@, f) is Some {
        latest(sym.imported_functions@, f)->0.return_type@
    } else {
        Ty::Any
    }
}

/// The type of a field access on a value of type `t`.
pub open spec fn member_type(sym: Symbols, t: Ty, field: Seq<char>) -> Ty {
    match t {
        Ty::Struct { name } => match latest(sym.structs@, name) {
            Some(info) => match latest(info.fields@, field) {
                Some(fi) => fi.ty@,
                None => Ty::Any,
            },
            None => Ty::Any,
        },
        _ => Ty::Any,
    }
}

/// The type the checker infers for `e` under the tables `sym` and the scopes `vars`.
pub open spec fn infer_ty(sym: Symbols, vars: Seq<Vec<(String, Type)>>, e: Expr) -> Ty
    decreases e,
{
    match e {
        Expr::Number(_) => Ty::Int { bits: 32, signed: true },
        Expr::HexNumber(_) => Ty::Int { bits: 32, signed: true },
        Expr::BinaryNumber(_) => Ty::Int { bits: 32, signed: true },
        Expr::OctalNumber(_) => Ty::Int { bits: 32, signed: true },
        Expr::Float(_) => Ty::Float { bits: 32 },
        Expr::String(_) => Ty::Str { len_type: Box::new(Ty::Int { bits: 64, signed: true }) },
        Expr::Bool(_) => Ty::Bool,
        Expr::NoneValue => Ty::Option { inner: Box::new(Ty::Any) },
        Expr::Var(n) => if n@ == "self"@ {
            Ty::SelfType
        } else {
            match scope_lookup(vars, n@) {
                Some(t) => t@,
                None => Ty::Any,
            }
        },
        Expr::CallNamed(s, _) => if latest(sym.structs@, s@) is Some {
            Ty::Struct { name: s@ }
        } else {
            Ty::Any
        },
        Expr::BinOp(op, l, r) => {
            let lt = infer_ty(sym, vars, *l);
            let rt = infer_ty(sym, vars, *r);
            if lt is Void || rt is Void {
                Ty::Void
            } else if is_comparison(op@) {
                Ty::Bool
            } else if lt is Float {
                lt
            } else if rt is Float {
                rt
            } else {
                lt
            }
        },
        Expr::UnOp(op, x) => {
            let t = infer_ty(sym, vars, *x);
            if t is Void {
                Ty::Void
            } else if op@ == "!"@ {
                Ty::Bool
            } else if op@ == "&"@ {
                Ty::Ref(Box::new(t))
            } else if op@ == "*"@ && t is Ptr {
                *(t->Ptr_0)
            } else {
                t
            }
        },
        Expr::Call(f, _) => call_result(sym, f@),
        Expr::Array(es) => if es.len() == 0 {
            Ty::Array { element: Box::new(Ty::Any), size: Some(0) }
        } else {
            Ty::Array { element: Box::new(infer_ty(sym, vars, es@[0])), size: Some(es.len()) }
        },
        Expr::Tuple(es) => Ty::Tuple { fields: infer_all(sym, vars, es@) },
        Expr::Index(obj, _) => match infer_ty(sym, vars, *obj) {
            Ty::Array { element, .. } => *element,
            _ => Ty::Any,
        },
        Expr::MemberAccess(obj, field) => member_type(sym, infer_ty(sym, vars, *obj), field@),
        Expr::SomeValue(x) => Ty::Option { inner: Box::new(infer_ty(sym, vars, *x)) },
        Expr::ResultOk(x) => Ty::Result {
            ok: Box::new(infer_ty(sym, vars, *x)),
            err: Box::new(Ty::Any),
        },
        Expr::ResultErr(x) => Ty::Result {
            ok: Box::new(Ty::Any),
            err: Box::new(infer_ty(sym, vars, *x)),
        },
        Expr::Not(_) => Ty::Bool,
        _ => Ty::Any,
    }
}

/// The inferred types of `s`, one for each.
pub open spec fn infer_all(sym: Symbols, vars: Seq<Vec<(String, Type)>>, s: Seq<Expr>) -> Seq<Ty>
    decreases s,
{
    if s.len() == 0 {
        Seq::empty()
    } else {
        infer_all(sym, vars, s.drop_last()).push(infer_ty(sym, vars, s.last()))
    }
}

fn any_type() -> (r: Type)
    ensures
        r@ == Ty::Any,
{
    Type::Any
}

/// Whether the string `a` spells `b`.
pub fn spells(a: &String, b: &str) -> (r: bool)
    ensures
        r == (a@ == b@),
{
    *a == String::from_str(b)
}

fn is_comparison_op(op: &String) -> (r: bool)
    ensures
        r == is_comparison(op@),
{
    spells(op, "==") || spells(op, "!=") || spells(op, "<") || spells(op, ">") || spells(op, "<=")
        || spells(op, ">=") || spells(op, "&&") || spells(op, "||")
}

/// Semantic checker: scope-resolved inference, signature checks and borrow tracking.
pub struct TypeChecker {
    pub handler: DiagnosticHandler,
    pub symbols: Symbols,
    pub variables: Vec<Vec<(String, Type)>>,
    pub current_function_return_type: Option<Type>,
    pub borrow_tracker: BorrowTracker,
    pub current_line: usize,
}

/// A location in the checked input.
pub fn make_location(line: usize, col: usize, len: usize) -> (r: SourceLocation)
    ensures
        r.file@ == "input"@,
        r.line == line,
        r.column == col,
        r.length == len,
{
    SourceLocation { file: text("input"), line, column: col, length: len }
}

fn builtin(
    table: &mut Vec<(String, FunctionSignature)>,
    name: &str,
    params: Vec<(String, Type, ParamModifier)>,
    ret: Type,
)
    ensures
        final(table)@ == old(table)@.push(final(table)@.last()),
        final(table)@.last().0@ == name@,
        final(table)@.last().1.return_type@ == ret@,
        final(table)@.last().1.params@ == params@,
        final(table)@.last().1.is_builtin,
{
    let sig = FunctionSignature {
        params,
        return_type: ret,
        location: make_location(0, 0, 0),
        is_builtin: true,
    };
    table.push((String::from_str(name), sig));
}

fn any_param(name: &str) -> (r: (String, Type, ParamModifier))
    ensures
        r.0@ == name@,
        r.1@ == Ty::Any,
        r.2 == ParamModifier::Immutable,
{
    (String::from_str(name), Type::Any, ParamModifier::Immutable)
}

impl TypeChecker {
    /// The names every program may call without declaring them.
    pub open spec fn is_builtin_name(&self, n: Seq<char>) -> bool {
        latest(self.symbols.builtin_functions@, n) is Some
    }

    /// The invariants kept between statements.
    pub open spec fn wf(&self) -> bool {
        &&& self.borrow_tracker.wf()
        &&& self.variables@.len() >= 1
        &&& self.handler.budget() > 0
    }

    pub fn new(source_code: String) -> (r: Self)
        ensures
            r.wf(),
            r.handler.error_count == 0,
            r.variables@.len() == 1,
            r.symbols.functions@.len() == 0,
            r.symbols.imported_functions@.len() == 0,
            r.symbols.structs@.len() == 0,
            r.symbols.enums@.len() == 0,
            r.symbols.builtin_functions@.len() == 11,
    {
        let mut checker = TypeChecker {
            handler: DiagnosticHandler::new(source_code),
            symbols: Symbols {
                functions: Vec::new(),
                builtin_functions: Vec::new(),
                imported_functions: Vec::new(),
                structs: Vec::new(),
                enums: Vec::new(),
            },
            variables: vec![Vec::new()],
            current_function_return_type: None,
            borrow_tracker: BorrowTracker::new(),
            current_line: 1,
        };
        checker.register_builtin_functions();
        checker
    }

    fn register_builtin_functions(&mut self)
        ensures
            final(self).symbols.builtin_functions@.len() == old(self).symbols.builtin_functions@.len()
                + 11,
            final(self).handler == old(self).handler,
            final(self).variables == old(self).variables,
            final(self).borrow_tracker == old(self).borrow_tracker,
            final(self).symbols.functions == old(self).symbols.functions,
            final(self).symbols.imported_functions == old(self).symbols.imported_functions,
            final(self).symbols.structs == old(self).symbols.structs,
            final(self).symbols.enums == old(self).symbols.enums,
    {
        let t = &mut self.symbols.builtin_functions;
        builtin(t, "print", Vec::new(), Type::Void);
        builtin(t, "println", Vec::new(), Type::Void);
        builtin(t, "panic", Vec::new(), Type::Void);
        builtin(t, "array", Vec::new(), Type::Void);
        builtin(t, "slots", Vec::new(), Type::Void);
        builtin(t, "lists", Vec::new(), Type::Void);
        builtin(t, "char", Vec::new(), Type::char32());
        builtin(t, "len", vec![any_param("arr")], Type::i32());
        builtin(t, "push", vec![any_param("arr"), any_param("item")], Type::Void);
        builtin(t, "pop", vec![any_param("arr")], Type::Any);
        builtin(
            t,
            "assert",
            vec![(String::from_str("condition"), Type::Bool, ParamModifier::Immutable)],
            Type::Void,
        );
    }

    fn enter_scope(&mut self)
        ensures
            final(self).variables@.drop_last() == old(self).variables@,
            final(self).variables@.len() == old(self).variables@.len() + 1,
            final(self).variables@.last()@.len() == 0,
            final(self).symbols == old(self).symbols,
            final(self).handler == old(self).handler,
            final(self).borrow_tracker == old(self).borrow_tracker,
    {
        self.variables.push(Vec::new());
        proof {
            assert(self.variables@.drop_last() =~= old(self).variables@);
        }
    }

    /// Closes the innermost scope; its names become unreachable and the
    /// borrows of the body end.
    fn exit_scope(&mut self)
        requires
            old(self).variables@.len() >= 1,
        ensures
            final(self).variables@ == old(self).variables@.drop_last(),
            final(self).symbols == old(self).symbols,
            final(self).handler == old(self).handler,
            final(self).borrow_tracker.wf(),
            forall|n: Seq<char>|
                final(self).borrow_tracker.mutable_site(n) is None
                    && final(self).borrow_tracker.immutable_site(n) is None,
    {
        self.variables.pop();
        self.borrow_tracker.clear();
    }

    fn add_variable(&mut self, name: String, ty: Type)
        requires
            old(self).variables@.len() >= 1,
        ensures
            final(self).variables@.len() == old(self).variables@.len(),
            final(self).variables@.drop_last() == old(self).variables@.drop_last(),
            final(self).variables@.last()@ == old(self).variables@.last()@.push((name, ty)),
            scope_lookup(final(self).variables@, name@) == Some(ty),
            final(self).symbols == old(self).symbols,
            final(self).handler == old(self).handler,
            final(self).borrow_tracker == old(self).borrow_tracker,
    {
        let mut scope = match self.variables.pop() {
            Some(s) => s,
            None => Vec::new(),
        };
        scope.push((name, ty));
        self.variables.push(scope);
        proof {
            assert(self.variables@.drop_last() =~= old(self).variables@.drop_last());
        }
    }

    /// The type bound to `name`, innermost scope first.
    fn get_variable_type(&self, name: &str) -> (r: Option<Type>)
        ensures
            match scope_lookup(self.variables@, name@) {
                Some(t) => r is Some && r->0@ == t@,
                None => r is None,
            },
    {
        let mut i: usize = self.variables.len();
        proof {
            assert(self.variables@.subrange(0, i as int) =~= self.variables@);
        }
        while i > 0
            invariant
                i <= self.variables@.len(),
                scope_lookup(self.variables@, name@) == scope_lookup(
                    self.variables@.subrange(0, i as int),
                    name@,
                ),
            decreases i,
        {
            proof {
                assert(self.variables@.subrange(0, i as int).drop_last() =~= self.variables@.subrange(
                    0,
                    i - 1,
                ));
            }
            match find_latest(&self.variables[i - 1], name) {
                Some(k) => {
                    return Some(self.variables[i - 1][k].1.duplicate());
                },
                None => {},
            }
            i = i - 1;
        }
        None
    }

    /// Everything but the diagnostics is left as it was, and errors only accumulate.
    pub open spec fn only_reports(&self, before: Self) -> bool {
        &&& self.symbols == before.symbols
        &&& self.variables == before.variables
        &&& self.borrow_tracker == before.borrow_tracker
        &&& self.current_function_return_type == before.current_function_return_type
        &&& self.handler.error_count >= before.handler.error_count
        &&& self.handler.budget() == before.handler.budget()
        &&& forall|c: Seq<char>| before.handler.has_code(c) ==> #[trigger] self.handler.has_code(c)
    }

    fn call_result_of(&self, f: &String) -> (r: Type)
        ensures
            r@ == call_result(self.symbols, f@),
    {
        if find_latest(&self.symbols.structs, f.as_str()).is_some() {
            return Type::Struct { name: f.clone() };
        }
        match find_latest(&self.symbols.functions, f.as_str()) {
            Some(k) => {
                return self.symbols.functions[k].1.return_type.duplicate();
            },
            None => {},
        }
        match find_latest(&self.symbols.builtin_functions, f.as_str()) {
            Some(k) => {
                return self.symbols.builtin_functions[k].1.return_type.duplicate();
            },
            None => {},
        }
        match find_latest(&self.symbols.imported_functions, f.as_str()) {
            Some(k) => {
                return self.symbols.imported_functions[k].1.return_type.duplicate();
            },
            None => {},
        }
        Type::Any
    }

    fn member_type_of(&self, t: &Type, field: &String) -> (r: Type)
        ensures
            r@ == member_type(self.symbols, t@, field@),
    {
        match t {
            Type::Struct { name } => match find_latest(&self.symbols.structs, name.as_str()) {
                Some(k) => {
                    let info = &self.symbols.structs[k].1;
                    match find_latest(&info.fields, field.as_str()) {
                        Some(j) => info.fields[j].1.ty.duplicate(),
                        None => Type::Any,
                    }
                },
                None => Type::Any,
            },
            _ => Type::Any,
        }
    }

    fn report_undefined_variable(&mut self, name: &String)
        ensures
            final(self).only_reports(*old(self)),
            final(self).handler.error_count > 0,
    {
        let msg = join3("Cannot find variable '", name.as_str(), "' in this scope");
        let ctx = undefined_variable_error(name.as_str(), make_location(1, 1, name.as_str().len()));
        self.handler.error("E0425", msg.as_str(), ctx);
    }

    fn report_undefined_function(&mut self, name: &String, arg_count: usize)
        ensures
            final(self).only_reports(*old(self)),
            final(self).handler.error_count > 0,
    {
        let msg = join3("Cannot find function '", name.as_str(), "' in this scope");
        let ctx = undefined_function_error(name.as_str(), arg_count, make_location(1, 1, name.as_str().len()));
        self.handler.error("E0425", msg.as_str(), ctx);
    }

    /// The type of `e`. A variable or function that nothing defines is
    /// reported as E0425 and typed `any`.
    #[verifier::rlimit(40)]
    pub fn infer_expr_type(&mut self, e: &Expr) -> (r: Type)
        ensures
            r@ == infer_ty(old(self).symbols, old(self).variables@, *e),
            final(self).only_reports(*old(self)),
        decreases e,
    {
        match e {
            Expr::Number(_) => Type::i32(),
            Expr::HexNumber(_) => Type::i32(),
            Expr::BinaryNumber(_) => Type::i32(),
            Expr::OctalNumber(_) => Type::i32(),
            Expr::Float(_) => Type::float32(),
            Expr::String(_) => Type::Str { len_type: Box::new(Type::i64()) },
            Expr::Bool(_) => Type::Bool,
            Expr::NoneValue => Type::Option { inner: Box::new(any_type()) },
            Expr::Var(name) => {
                if spells(name, "self") {
                    Type::SelfType
                } else {
                    match self.get_variable_type(name.as_str()) {
                        Some(t) => t,
                        None => {
                            self.report_undefined_variable(name);
                            Type::Any
                        },
                    }
                }
            },
            Expr::CallNamed(s, _) => {
                if find_latest(&self.symbols.structs, s.as_str()).is_some() {
                    Type::Struct { name: s.clone() }
                } else {
                    Type::Any
                }
            },
            Expr::BinOp(op, l, r) => {
                let lt = self.infer_expr_type(l);
                let rt = self.infer_expr_type(r);
                if lt.is_void() || rt.is_void() {
                    Type::Void
                } else if is_comparison_op(op) {
                    Type::Bool
                } else if let Type::Float { .. } = lt {
                    lt
                } else if let Type::Float { .. } = rt {
                    rt
                } else {
                    lt
                }
            },
            Expr::UnOp(op, x) => {
                let t = self.infer_expr_type(x);
                if t.is_void() {
                    Type::Void
                } else if spells(op, "!") {
                    Type::Bool
                } else if spells(op, "&") {
                    Type::Ref(Box::new(t))
                } else if spells(op, "*") {
                    match t {
                        Type::Ptr(inner) => *inner,
                        other => other,
                    }
                } else {
                    t
                }
            },
            Expr::Call(f, args) => {
                let known = find_latest(&self.symbols.structs, f.as_str()).is_some()
                    || find_latest(&self.symbols.functions, f.as_str()).is_some()
                    || find_latest(&self.symbols.builtin_functions, f.as_str()).is_some()
                    || find_latest(&self.symbols.imported_functions, f.as_str()).is_some();
                let t = self.call_result_of(f);
                if !known {
                    self.report_undefined_function(f, args.len());
                }
                t
            },
            Expr::Array(es) => {
                if es.len() == 0 {
                    Type::Array { element: Box::new(any_type()), size: Some(0) }
                } else {
                    let first = self.infer_expr_type(&es[0]);
                    Type::Array { element: Box::new(first), size: Some(es.len()) }
                }
            },
            Expr::Tuple(es) => {
                let ghost sym = self.symbols;
                let ghost vars = self.variables@;
                let mut fields: Vec<Type> = Vec::new();
                let mut i: usize = 0;
                while i < es.len()
                    invariant
                        i <= es.len(),
                        self.symbols == sym,
                        self.variables@ == vars,
                        self.only_reports(*old(self)),
                        e is Tuple,
                        e is Tuple,
                        *es == e->Tuple_0,
                        type_views(fields@) == infer_all(sym, vars, es@.subrange(0, i as int)),
                    decreases es.len() - i,
                {
                    let t = self.infer_expr_type(&es[i]);
                    let ghost before = fields@;
                    fields.push(t);
                    proof {
                        assert(fields@.drop_last() =~= before);
                        assert(es@.subrange(0, i + 1).drop_last() =~= es@.subrange(0, i as int));
                    }
                    i = i + 1;
                }
                proof {
                    assert(es@.subrange(0, i as int) =~= es@);
                }
                Type::Tuple { fields }
            },
            Expr::Index(obj, _) => {
                let t = self.infer_expr_type(obj);
                match t {
                    Type::Array { element, .. } => *element,
                    _ => Type::Any,
                }
            },
            Expr::MemberAccess(obj, field) => {
                let t = self.infer_expr_type(obj);
                self.member_type_of(&t, field)
            },
            Expr::SomeValue(x) => {
                let t = self.infer_expr_type(x);
                Type::Option { inner: Box::new(t) }
            },
            Expr::ResultOk(x) => {
                let t = self.infer_expr_type(x);
                Type::Result { ok: Box::new(t), err: Box::new(any_type()) }
            },
            Expr::ResultErr(x) => {
                let t = self.infer_expr_type(x);
                Type::Result { ok: Box::new(any_type()), err: Box::new(t) }
            },
            Expr::Not(x) => {
                let _ = self.infer_expr_type(x);
                Type::Bool
            },
            _ => Type::Any,
        }
    }
}

/// How the checker writes a type in its messages.
pub open spec fn display_ty(t: Ty) -> Seq<char>
    decreases t,
{
    match t {
        Ty::Int { bits, signed } => if signed {
            "int"@ + dec(bits as nat)
        } else {
            "uint"@ + dec(bits as nat)
        },
        Ty::Float { bits } => "float"@ + dec(bits as nat),
        Ty::Bool => "bool"@,
        Ty::Void => "void"@,
        Ty::Str { .. } => "str"@,
        Ty::ConstStr => "const str"@,
        Ty::Any => "any"@,
        Ty::SelfType => "Self"@,
        Ty::Trait => "trait"@,
        Ty::Option { inner } => "Option<"@ + display_ty(*inner) + ">"@,
        Ty::Result { ok, err } => "Result<"@ + display_ty(*ok) + ", "@ + display_ty(*err) + ">"@,
        Ty::Array { element, size } => match size {
            Some(n) => "["@ + display_ty(*element) + "; "@ + dec(n as nat) + "]"@,
            None => "["@ + display_ty(*element) + "]"@,
        },
        Ty::Tuple { fields } => "("@ + display_join(fields, ", "@) + ")"@,
        Ty::Struct { name } => name,
        Ty::Ref(i) => "&"@ + display_ty(*i),
        Ty::MutRef(i) => "&mut "@ + display_ty(*i),
        Ty::RawPtr(i) => "^"@ + display_ty(*i),
        Ty::Owned(i) => "~"@ + display_ty(*i),
        Ty::Ptr(i) => "*"@ + display_ty(*i),
        Ty::Union { variants } => display_join(variants, " | "@),
        Ty::Intersection { types } => display_join(types, " & "@),
        Ty::Const(i) => "const "@ + display_ty(*i),
        Ty::MultiArray { element, dimensions } => display_ty(*element) + "["@ + dims_join(
            dimensions,
        ) + "]"@,
        Ty::TripleDot => "..."@,
        Ty::Variadic => "..."@,
        Ty::Char { bits, .. } => if bits == 8 {
            "char"@
        } else if bits == 32 {
            "char32"@
        } else {
            "char"@ + dec(bits as nat)
        },
        Ty::StrSlice { .. } => "str"@,
        Ty::FnPtr { params, return_type } => "fn("@ + display_join(params, ", "@) + ") -> "@
            + display_ty(*return_type),
    }
}

/// The message forms of `s`, separated by `sep`.
pub open spec fn display_join(s: Seq<Ty>, sep: Seq<char>) -> Seq<char>
    decreases s,
{
    if s.len() == 0 {
        Seq::empty()
    } else if s.len() == 1 {
        display_ty(s[0])
    } else {
        display_join(s.drop_last(), sep) + sep + display_ty(s.last())
    }
}

/// Dimensions separated by `][`.
pub open spec fn dims_join(d: Seq<usize>) -> Seq<char>
    decreases d.len(),
{
    if d.len() == 0 {
        Seq::empty()
    } else if d.len() == 1 {
        dec(d[0] as nat)
    } else {
        dims_join(d.drop_last()) + "]["@ + dec(d.last() as nat)
    }
}

fn display_joined(v: &Vec<Type>, sep: &str) -> (r: String)
    ensures
        r@ == display_join(type_views(v@), sep@),
    decreases v,
{
    let ghost s = type_views(v@);
    proof {
        lemma_type_views(v@);
    }
    let mut out = String::new();
    let mut i: usize = 0;
    while i < v.len()
        invariant
            s == type_views(v@),
            s.len() == v@.len(),
            forall|j: int| 0 <= j < v@.len() ==> #[trigger] s[j] == v@[j]@,
            i <= v.len(),
            out@ == display_join(s.subrange(0, i as int), sep@),
        decreases v.len() - i,
    {
        proof {
            assert(s.subrange(0, i + 1).drop_last() =~= s.subrange(0, i as int));
        }
        if i > 0 {
            out.append(sep);
        }
        let n = type_to_string(&v[i]);
        out.append(n.as_str());
        i = i + 1;
        proof {
            if i == 1 {
                assert(out@ =~= display_ty(s[0]));
            }
        }
    }
    proof {
        assert(s.subrange(0, i as int) =~= s);
    }
    out
}

fn dims_joined(d: &Vec<usize>) -> (r: String)
    ensures
        r@ == dims_join(d@),
{
    let mut out = String::new();
    let mut i: usize = 0;
    while i < d.len()
        invariant
            i <= d.len(),
            out@ == dims_join(d@.subrange(0, i as int)),
        decreases d.len() - i,
    {
        proof {
            assert(d@.subrange(0, i + 1).drop_last() =~= d@.subrange(0, i as int));
        }
        if i > 0 {
            out.append("][");
        }
        out.append(usize_text(d[i]).as_str());
        i = i + 1;
        proof {
            if i == 1 {
                assert(out@ =~= dec(d@[0] as nat));
            }
        }
    }
    proof {
        assert(d@.subrange(0, i as int) =~= d@);
    }
    out
}

/// How the checker writes a type in its messages.
pub fn type_to_string(ty: &Type) -> (r: String)
    ensures
        r@ == display_ty(ty@),
    decreases ty,
{
    match ty {
        Type::Int { bits, signed } => if *signed {
            join2("int", usize_text(*bits).as_str())
        } else {
            join2("uint", usize_text(*bits).as_str())
        },
        Type::Float { bits } => join2("float", usize_text(*bits).as_str()),
        Type::Bool => text("bool"),
        Type::Void => text("void"),
        Type::Str { .. } => text("str"),
        Type::ConstStr => text("const str"),
        Type::Any => text("any"),
        Type::SelfType => text("Self"),
        Type::Trait => text("trait"),
        Type::Option { inner } => join3("Option<", type_to_string(inner).as_str(), ">"),
        Type::Result { ok, err } => {
            let mut s = join4("Result<", type_to_string(ok).as_str(), ", ", type_to_string(err).as_str());
            s.append(">");
            s
        },
        Type::Array { element, size } => match size {
            Some(n) => join5("[", type_to_string(element).as_str(), "; ", usize_text(*n).as_str(), "]"),
            None => join3("[", type_to_string(element).as_str(), "]"),
        },
        Type::Tuple { fields } => join3("(", display_joined(fields, ", ").as_str(), ")"),
        Type::Struct { name } => name.clone(),
        Type::Ref(i) => join2("&", type_to_string(i).as_str()),
        Type::MutRef(i) => join2("&mut ", type_to_string(i).as_str()),
        Type::RawPtr(i) => join2("^", type_to_string(i).as_str()),
        Type::Owned(i) => join2("~", type_to_string(i).as_str()),
        Type::Ptr(i) => join2("*", type_to_string(i).as_str()),
        Type::Union { variants } => display_joined(variants, " | "),
        Type::Intersection { types } => display_joined(types, " & "),
        Type::Const(i) => join2("const ", type_to_string(i).as_str()),
        Type::MultiArray { element, dimensions } => join4(
            type_to_string(element).as_str(),
            "[",
            dims_joined(dimensions).as_str(),
            "]",
        ),
        Type::TripleDot => text("..."),
        Type::Variadic => text("..."),
        Type::Char { bits, .. } => if *bits == 8 {
            text("char")
        } else if *bits == 32 {
            text("char32")
        } else {
            join2("char", usize_text(*bits).as_str())
        },
        Type::StrSlice { .. } => text("str"),
        Type::FnPtr { params, return_type } => join4(
            "fn(",
            display_joined(params, ", ").as_str(),
            ") -> ",
            type_to_string(return_type).as_str(),
        ),
    }
}

/// Every variable declared in `s`, at any depth, has a declarable type.
pub open spec fn stmt_decls_ok(s: Stmt) -> bool
    decreases s,
{
    match s {
        Stmt::TypedDeclaration { ty, .. } => declarable(ty@),
        Stmt::If(_, then_body, else_body) => block_decls_ok(then_body@) && match else_body {
            Some(b) => block_decls_ok(b@),
            None => true,
        },
        Stmt::While(_, body) => block_decls_ok(body@),
        Stmt::For(_, _, body) => block_decls_ok(body@),
        Stmt::Scope(body) => block_decls_ok(body@),
        Stmt::Match(_, cases, default) => cases_decls_ok(cases@) && match default {
            Some(b) => block_decls_ok(b@),
            None => true,
        },
        _ => true,
    }
}

pub open spec fn block_decls_ok(b: Seq<Stmt>) -> bool
    decreases b,
{
    if b.len() == 0 {
        true
    } else {
        block_decls_ok(b.drop_last()) && stmt_decls_ok(b.last())
    }
}

pub open spec fn cases_decls_ok(c: Seq<MatchCase>) -> bool
    decreases c,
{
    if c.len() == 0 {
        true
    } else {
        cases_decls_ok(c.drop_last()) && block_decls_ok(c.last().body@)
    }
}

/// Every parameter of `ps` has a declarable type.
pub open spec fn params_ok(ps: Seq<(String, Type, ParamModifier)>) -> bool {
    forall|i: int| 0 <= i < ps.len() ==> declarable(#[trigger] ps[i].1@)
}

/// Every field of `fs` has a declarable type.
pub open spec fn fields_ok(fs: Seq<StructField>) -> bool {
    forall|i: int| 0 <= i < fs.len() ==> declarable(#[trigger] fs[i].ty@)
}

/// Void gate over a whole program: no parameter, field or variable is void,
/// nor holds a void element, component or variant.
pub open spec fn program_void_free(
    functions: Seq<Function>,
    structs: Seq<StructDef>,
    impls: Seq<ImplBlock>,
) -> bool {
    &&& forall|i: int|
        0 <= i < functions.len() ==> params_ok(#[trigger] functions[i].params@) && block_decls_ok(
            functions[i].body@,
        )
    &&& forall|i: int| 0 <= i < structs.len() ==> fields_ok(#[trigger] structs[i].fields@)
    &&& forall|i: int| 0 <= i < impls.len() ==> impl_decls_ok(#[trigger] impls[i])
}

/// Every method of an impl block has declarable parameters and variables.
pub open spec fn impl_decls_ok(b: ImplBlock) -> bool {
    forall|j: int|
        0 <= j < b.methods@.len() ==> params_ok(#[trigger] b.methods@[j].params@) && block_decls_ok(
            b.methods@[j].body@,
        )
}

/// The parameter types and modes of a signature, copied out of the table.
fn param_shapes(ps: &Vec<(String, Type, ParamModifier)>) -> (r: Vec<(Type, ParamModifier)>)
    ensures
        r@.len() == ps@.len(),
        forall|i: int| 0 <= i < ps@.len() ==> #[trigger] r@[i].0@ == ps@[i].1@ && r@[i].1 == ps@[i].2,
{
    let mut out: Vec<(Type, ParamModifier)> = Vec::new();
    let mut i: usize = 0;
    while i < ps.len()
        invariant
            i <= ps.len(),
            out@.len() == i,
            forall|j: int| 0 <= j < i ==> #[trigger] out@[j].0@ == ps@[j].1@ && out@[j].1 == ps@[j].2,
        decreases ps.len() - i,
    {
        out.push((ps[i].1.duplicate(), ps[i].2));
        i = i + 1;
    }
    out
}

impl TypeChecker {
    /// The frame every checking step keeps: tables, depth of scopes and
    /// budget stay, the invariants hold, and errors only accumulate.
    pub open spec fn checked_from(&self, before: Self) -> bool {
        &&& self.wf()
        &&& self.symbols == before.symbols
        &&& self.variables@.len() == before.variables@.len()
        &&& self.variables@.drop_last() == before.variables@.drop_last()
        &&& self.handler.error_count >= before.handler.error_count
        &&& self.handler.budget() == before.handler.budget()
        &&& forall|c: Seq<char>| before.handler.has_code(c) ==> #[trigger] self.handler.has_code(c)
    }

    fn report(&mut self, code: &str, message: &str, context: ErrorContext)
        ensures
            final(self).only_reports(*old(self)),
            final(self).handler.error_count > 0,
            final(self).handler.has_code(code@),
    {
        self.handler.error(code, message, context);
    }

    fn borrow_mutably(&mut self, name: &String, what: &str)
        requires
            old(self).wf(),
        ensures
            final(self).checked_from(*old(self)),
            final(self).variables == old(self).variables,
            final(self).current_function_return_type == old(self).current_function_return_type,
    {
        let loc = make_location(1, 1, name.as_str().len());
        if let Some(conflict) = self.borrow_tracker.add_mutable_borrow(name.clone(), loc) {
            let msg = join3("Cannot borrow '", name.as_str(), what);
            let ctx = borrow_conflict_error(name.as_str(), make_location(1, 1, name.as_str().len()), conflict);
            self.report("E0502", msg.as_str(), ctx);
        }
    }

    fn borrow_immutably(&mut self, name: &String)
        requires
            old(self).wf(),
        ensures
            final(self).checked_from(*old(self)),
            final(self).variables == old(self).variables,
            final(self).current_function_return_type == old(self).current_function_return_type,
    {
        let loc = make_location(1, 1, name.as_str().len());
        if let Some(conflict) = self.borrow_tracker.add_immutable_borrow(name.clone(), loc) {
            let msg = join3("Cannot borrow '", name.as_str(), "' as immutable while mutable borrow exists");
            let ctx = borrow_conflict_error(name.as_str(), make_location(1, 1, name.as_str().len()), conflict);
            self.report("E0502", msg.as_str(), ctx);
        }
    }

    /// Reports E0001 unless `ty` may be given to a variable, field or parameter.
    fn check_declarable(&mut self, name: &String, ty: &Type, what: &str)
        ensures
            final(self).only_reports(*old(self)),
            !declarable(ty@) ==> final(self).handler.error_count > 0,
            !declarable(ty@) ==> final(self).handler.has_code("E0001"@),
    {
        if !ty.is_declarable() {
            let msg = join4(what, " '", name.as_str(), "' cannot have void type");
            let ctx = void_variable_error(name.as_str(), make_location(1, 1, name.as_str().len()));
            self.report("E0001", msg.as_str(), ctx);
        }
    }

    /// Reports E0308 unless `got` may stand where `expected` is required.
    fn expect_compatible(&mut self, expected: &Type, got: &Type, message: &str)
        ensures
            final(self).only_reports(*old(self)),
            !compat(expected@, got@) ==> final(self).handler.error_count > 0,
    {
        if !types_compatible(expected, got) {
            let e = type_to_string(expected);
            let g = type_to_string(got);
            let ctx = type_mismatch_error(e.as_str(), g.as_str(), make_location(1, 1, 1), make_location(1, 1, 1));
            self.report("E0308", message, ctx);
        }
    }

    /// Reports E0308 unless a condition has type `bool` or `any`.
    fn expect_condition(&mut self, t: &Type, message: &str, help: &str)
        ensures
            final(self).only_reports(*old(self)),
            !(t@ is Bool || t@ is Any) ==> final(self).handler.error_count > 0,
    {
        match t {
            Type::Bool | Type::Any => {},
            _ => {
                let ctx = ErrorContext {
                    primary_location: make_location(1, 1, 2),
                    secondary_locations: Vec::new(),
                    help_message: Some(join2(help, type_to_string(t).as_str())),
                    suggestions: vec![text("Use a comparison operator (==, !=, <, >, <=, >=)")],
                };
                self.report("E0308", message, ctx);
            },
        }
    }

    /// Checks a call: the callee must be known, the number of arguments must
    /// match, each argument must fit its parameter, and arguments passed by
    /// reference must not overlap.
    fn check_call(&mut self, func_name: &String, args: &Vec<Expr>)
        requires
            old(self).wf(),
        ensures
            final(self).checked_from(*old(self)),
            final(self).variables == old(self).variables,
            final(self).borrow_tracker == old(self).borrow_tracker,
            final(self).current_function_return_type == old(self).current_function_return_type,
            latest(old(self).symbols.builtin_functions@, func_name@) is None && latest(
                old(self).symbols.imported_functions@,
                func_name@,
            ) is None && latest(old(self).symbols.functions@, func_name@) is None
                ==> final(self).handler.error_count > 0,
            latest(old(self).symbols.builtin_functions@, func_name@) is None && latest(
                old(self).symbols.imported_functions@,
                func_name@,
            ) is None && latest(old(self).symbols.functions@, func_name@) is Some && latest(
                old(self).symbols.functions@,
                func_name@,
            )->0.params@.len() != args@.len() ==> final(self).handler.error_count > 0,
    {
        if find_latest(&self.symbols.builtin_functions, func_name.as_str()).is_some() {
            return;
        }
        if find_latest(&self.symbols.imported_functions, func_name.as_str()).is_some() {
            return;
        }
        let k = match find_latest(&self.symbols.functions, func_name.as_str()) {
            Some(k) => k,
            None => {
                self.report_undefined_function(func_name, args.len());
                return;
            },
        };
        let shapes = param_shapes(&self.symbols.functions[k].1.params);
        if args.len() != shapes.len() {
            let expected = usize_text(shapes.len());
            let got = usize_text(args.len());
            let mut msg = join5("Function '", func_name.as_str(), "' expects ", expected.as_str(), " arguments, got ");
            msg.append(got.as_str());
            let fix = if args.len() < shapes.len() {
                join3("Add ", usize_text(shapes.len() - args.len()).as_str(), " more argument(s)")
            } else {
                join3("Remove ", usize_text(args.len() - shapes.len()).as_str(), " argument(s)")
            };
            let ctx = ErrorContext {
                primary_location: make_location(1, 1, func_name.as_str().len()),
                secondary_locations: vec![
                    (self.symbols.functions[k].1.location.duplicate(), join3("defined here with ", expected.as_str(), " parameters")),
                ],
                help_message: Some(join5("This function requires ", expected.as_str(), " argument(s), but ", got.as_str(), " were provided.")),
                suggestions: vec![fix],
            };
            self.report("E0061", msg.as_str(), ctx);
            return;
        }
        let ghost start = *self;
        let mut borrows = BorrowTracker::new();
        let mut i: usize = 0;
        while i < args.len()
            invariant
                i <= args.len(),
                shapes@.len() == args@.len(),
                borrows.wf(),
                self.checked_from(*old(self)),
                self.variables == old(self).variables,
                self.borrow_tracker == old(self).borrow_tracker,
                self.current_function_return_type == old(self).current_function_return_type,
            decreases args.len() - i,
        {
            let arg_type = self.infer_expr_type(&args[i]);
            let mut msg = join3("Type mismatch in argument ", usize_text(i + 1).as_str(), " of function '");
            msg.append(func_name.as_str());
            msg.append("'");
            self.expect_compatible(&shapes[i].0, &arg_type, msg.as_str());
            if let Expr::Var(v) = &args[i] {
                let loc = make_location(1, 1, v.as_str().len());
                let conflict = match shapes[i].1 {
                    ParamModifier::MutableReference => borrows.add_mutable_borrow(v.clone(), loc),
                    ParamModifier::Reference => borrows.add_immutable_borrow(v.clone(), loc),
                    _ => None,
                };
                if let Some(site) = conflict {
                    let msg = join3("Cannot borrow '", v.as_str(), "' more than once in this call");
                    let ctx = borrow_conflict_error(v.as_str(), make_location(1, 1, v.as_str().len()), site);
                    self.report("E0502", msg.as_str(), ctx);
                }
            }
            i = i + 1;
        }
    }
}

/// The type that a `for` loop gives its variable when it walks a value of type `t`.
pub open spec fn iteration_element(t: Ty) -> Option<Ty> {
    match t {
        Ty::Array { element, .. } => Some(*element),
        Ty::MultiArray { element, .. } => Some(*element),
        Ty::Result { ok, .. } => Some(*ok),
        Ty::Option { inner } => Some(*inner),
        _ => None,
    }
}

/// The statement rules whose breach `check_statement` always reports, judged
/// under the tables `sym` and the scopes `vars`.
pub open spec fn stmt_flagged(sym: Symbols, vars: Seq<Vec<(String, Type)>>, s: Stmt, ret: Ty) -> bool {
    ||| s is TypedDeclaration && !declarable(s->TypedDeclaration_ty@)
    ||| s is Assign && scope_lookup(vars, s->Assign_0@) is None
    ||| s is Return && s->Return_0 is None && !compat(ret, Ty::Void)
    ||| s is Return && s->Return_0 is Some && !compat(ret, infer_ty(sym, vars, s->Return_0->0))
    ||| s is If && !(infer_ty(sym, vars, s->If_0) is Bool || infer_ty(sym, vars, s->If_0) is Any)
    ||| s is While && !(infer_ty(sym, vars, s->While_0) is Bool || infer_ty(sym, vars, s->While_0) is Any)
    ||| s is For && iteration_element(infer_ty(sym, vars, s->For_1)) is None
}

/// Some method of an impl block has a body statement that breaks a rule
/// whatever the scopes hold.
pub open spec fn impl_flagged(sym: Symbols, b: ImplBlock) -> bool {
    exists|k: int| 0 <= k < b.methods@.len() && #[trigger] body_flagged(sym, b.methods@[k].body@, b.methods@[k].return_type@)
}

/// A statement that breaks a rule whatever the scopes hold.
pub open spec fn always_flagged(sym: Symbols, s: Stmt, ret: Ty) -> bool {
    forall|vars: Seq<Vec<(String, Type)>>| #[trigger] stmt_flagged(sym, vars, s, ret)
}

/// Some statement of `body` breaks a rule whatever the scopes hold.
pub open spec fn body_flagged(sym: Symbols, body: Seq<Stmt>, ret: Ty) -> bool {
    exists|i: int| 0 <= i < body.len() && #[trigger] always_flagged(sym, body[i], ret)
}

fn is_integer_type(t: &Type) -> (r: bool)
    ensures
        r == (t@ is Int && (t@->Int_bits == 8 || t@->Int_bits == 16 || t@->Int_bits == 32
            || t@->Int_bits == 64 || t@->Int_bits == 128)),
{
    match t {
        Type::Int { bits, .. } => *bits == 8 || *bits == 16 || *bits == 32 || *bits == 64 || *bits
            == 128,
        _ => false,
    }
}

impl TypeChecker {
    /// Checks the statements of `body` in the current scope.
    pub fn check_block(&mut self, body: &Vec<Stmt>, expected_return_type: &Type)
        requires
            old(self).wf(),
        ensures
            final(self).checked_from(*old(self)),
            !block_decls_ok(body@) ==> final(self).handler.error_count > 0,
            !block_decls_ok(body@) ==> final(self).handler.has_code("E0001"@),
        decreases body,
    {
        let mut i: usize = 0;
        while i < body.len()
            invariant
                i <= body.len(),
                self.checked_from(*old(self)),
                !block_decls_ok(body@.subrange(0, i as int)) ==> self.handler.error_count > 0,
                !block_decls_ok(body@.subrange(0, i as int)) ==> self.handler.has_code("E0001"@),
            decreases body.len() - i,
        {
            proof {
                assert(body@.subrange(0, i + 1).drop_last() =~= body@.subrange(0, i as int));
            }
            self.check_statement(&body[i], expected_return_type);
            i = i + 1;
        }
        proof {
            assert(body@.subrange(0, i as int) =~= body@);
        }
    }

    /// Checks `body` in a scope of its own.
    fn check_scoped(&mut self, body: &Vec<Stmt>, expected_return_type: &Type)
        requires
            old(self).wf(),
        ensures
            final(self).checked_from(*old(self)),
            final(self).variables@ == old(self).variables@,
            !block_decls_ok(body@) ==> final(self).handler.error_count > 0,
            !block_decls_ok(body@) ==> final(self).handler.has_code("E0001"@),
        decreases body,
    {
        self.enter_scope();
        let ghost inner = *self;
        let mut i: usize = 0;
        while i < body.len()
            invariant
                i <= body.len(),
                inner.wf(),
                inner.variables@.drop_last() == old(self).variables@,
                self.checked_from(inner),
                self.handler.error_count >= old(self).handler.error_count,
                !block_decls_ok(body@.subrange(0, i as int)) ==> self.handler.error_count > 0,
                !block_decls_ok(body@.subrange(0, i as int)) ==> self.handler.has_code("E0001"@),
            decreases body.len() - i,
        {
            proof {
                assert(body@.subrange(0, i + 1).drop_last() =~= body@.subrange(0, i as int));
            }
            self.check_statement(&body[i], expected_return_type);
            i = i + 1;
        }
        proof {
            assert(body@.subrange(0, i as int) =~= body@);
        }
        self.exit_scope();
        proof {
            assert(self.variables@ =~= old(self).variables@);
        }
    }

    /// Checks one statement against the rules of the language.
    #[verifier::rlimit(60)]
    pub fn check_statement(&mut self, stmt: &Stmt, expected_return_type: &Type)
        requires
            old(self).wf(),
        ensures
            final(self).checked_from(*old(self)),
            !stmt_decls_ok(*stmt) ==> final(self).handler.error_count > 0,
            !stmt_decls_ok(*stmt) ==> final(self).handler.has_code("E0001"@),
            stmt is Assign && scope_lookup(old(self).variables@, stmt->Assign_0@) is None
                ==> final(self).handler.error_count > 0,
            stmt is Return && stmt->Return_0 is None && !compat(expected_return_type@, Ty::Void)
                ==> final(self).handler.error_count > 0,
            stmt is Return && stmt->Return_0 is Some && !compat(
                expected_return_type@,
                infer_ty(old(self).symbols, old(self).variables@, stmt->Return_0->0),
            ) ==> final(self).handler.error_count > 0,
            stmt is If && !(infer_ty(old(self).symbols, old(self).variables@, stmt->If_0) is Bool
                || infer_ty(old(self).symbols, old(self).variables@, stmt->If_0) is Any)
                ==> final(self).handler.error_count > 0,
            stmt is While && !(infer_ty(old(self).symbols, old(self).variables@, stmt->While_0)
                is Bool || infer_ty(old(self).symbols, old(self).variables@, stmt->While_0) is Any)
                ==> final(self).handler.error_count > 0,
            stmt_flagged(old(self).symbols, old(self).variables@, *stmt, expected_return_type@) ==> final(self).handler.error_count > 0,
            stmt is TypedDeclaration ==> scope_lookup(final(self).variables@, stmt->TypedDeclaration_name@) is Some
                && scope_lookup(final(self).variables@, stmt->TypedDeclaration_name@)->0@ == stmt->TypedDeclaration_ty@,
            stmt is For && iteration_element(
                infer_ty(old(self).symbols, old(self).variables@, stmt->For_1),
            ) is None ==> final(self).handler.error_count > 0,
        decreases stmt,
    {
        match stmt {
            Stmt::TypedDeclaration { name, ty, value, is_mutable } => {
                self.check_declarable(name, ty, "Variable");
                let value_type = self.infer_expr_type(value);
                let msg = join3("Type mismatch in variable declaration '", name.as_str(), "'");
                self.expect_compatible(ty, &value_type, msg.as_str());
                if *is_mutable {
                    self.borrow_mutably(name, "' as mutable more than once");
                }
                self.add_variable(name.clone(), ty.duplicate());
            },
            Stmt::Assign(name, value) => {
                match self.get_variable_type(name.as_str()) {
                    Some(var_type) => {
                        let value_type = self.infer_expr_type(value);
                        let msg = join3("Type mismatch in assignment to '", name.as_str(), "'");
                        self.expect_compatible(&var_type, &value_type, msg.as_str());
                    },
                    None => {
                        self.report_undefined_variable(name);
                    },
                }
            },
            Stmt::CompoundAssign(name, op, value) => {
                match self.get_variable_type(name.as_str()) {
                    Some(var_type) => {
                        if var_type.is_void() {
                            let msg = join3("Cannot perform operation '", op.as_str(), "' on void type");
                            let ctx = void_operation_error(op.as_str(), make_location(1, 1, name.as_str().len()));
                            self.report("E0277", msg.as_str(), ctx);
                        }
                        let value_type = self.infer_expr_type(value);
                        let msg = join3("Type mismatch in compound assignment to '", name.as_str(), "'");
                        self.expect_compatible(&var_type, &value_type, msg.as_str());
                    },
                    None => {
                        self.report_undefined_variable(name);
                    },
                }
            },
            Stmt::Return(expr_opt) => {
                let return_type = match expr_opt {
                    Some(e) => self.infer_expr_type(e),
                    None => Type::Void,
                };
                if !types_compatible(expected_return_type, &return_type) {
                    let e = type_to_string(expected_return_type);
                    let g = type_to_string(&return_type);
                    let ctx = return_type_mismatch_error(e.as_str(), g.as_str(), make_location(1, 1, 6), make_location(1, 1, 1));
                    self.report("E0308", "Mismatched return type", ctx);
                }
            },
            Stmt::If(cond, then_body, else_body) => {
                let cond_type = self.infer_expr_type(cond);
                self.expect_condition(&cond_type, "Condition must be boolean", "Expected boolean type in condition, found ");
                self.check_scoped(then_body, expected_return_type);
                match else_body {
                    Some(b) => self.check_scoped(b, expected_return_type),
                    None => {},
                }
            },
            Stmt::While(cond, body) => {
                let cond_type = self.infer_expr_type(cond);
                self.expect_condition(&cond_type, "Loop condition must be boolean", "Expected boolean type in loop condition, found ");
                self.check_scoped(body, expected_return_type);
            },
            Stmt::For(var_name, iterable, body) => {
                let iter_type = self.infer_expr_type(iterable);
                self.enter_scope();
                let element = match iter_type {
                    Type::Array { element, .. } => Some(*element),
                    Type::MultiArray { element, .. } => Some(*element),
                    Type::Result { ok, .. } => Some(*ok),
                    Type::Option { inner } => Some(*inner),
                    _ => None,
                };
                match element {
                    Some(t) => self.add_variable(var_name.clone(), t),
                    None => {
                        let ctx = ErrorContext {
                            primary_location: make_location(1, 1, 3),
                            secondary_locations: Vec::new(),
                            help_message: Some(text("Expected an array, a multi-dimensional array, a Result or an Option.")),
                            suggestions: vec![text("Use an array type"), text("Convert to iterable type")],
                        };
                        self.report("E0277", "For loop requires iterable type", ctx);
                        self.add_variable(var_name.clone(), Type::Any);
                    },
                }
                self.check_block(body, expected_return_type);
                self.exit_scope();
            },
            Stmt::Match(expr, cases, default) => {
                let expr_type = self.infer_expr_type(expr);
                let mut i: usize = 0;
                while i < cases.len()
                    invariant
                        i <= cases.len(),
                        self.checked_from(*old(self)),
                        self.variables@.len() == old(self).variables@.len(),
                        !cases_decls_ok(cases@.subrange(0, i as int)) ==> self.handler.error_count > 0,
                        !cases_decls_ok(cases@.subrange(0, i as int)) ==> self.handler.has_code("E0001"@),
                        stmt is Match,
                        *cases == stmt->Match_1,
                    decreases cases.len() - i,
                {
                    proof {
                        assert(cases@.subrange(0, i + 1).drop_last() =~= cases@.subrange(0, i as int));
                    }
                    let case_type = self.infer_expr_type(&cases[i].value);
                    self.expect_compatible(&expr_type, &case_type, "Match arm type mismatch");
                    self.check_scoped(&cases[i].body, expected_return_type);
                    i = i + 1;
                }
                proof {
                    assert(cases@.subrange(0, i as int) =~= cases@);
                }
                match default {
                    Some(b) => self.check_scoped(b, expected_return_type),
                    None => {},
                }
            },
            Stmt::Call(func_name, args) => {
                self.check_call(func_name, args);
            },
            Stmt::Expr(expr) => {
                match expr {
                    Expr::Call(func_name, args) => self.check_call(func_name, args),
                    _ => {
                        let _ = self.infer_expr_type(expr);
                    },
                }
            },
            Stmt::Scope(body) => {
                self.check_scoped(body, expected_return_type);
            },
            Stmt::IndexAssign(obj, indices, value) => {
                let obj_type = self.infer_expr_type(obj);
                let value_type = self.infer_expr_type(value);
                match &obj_type {
                    Type::Array { element, .. } => {
                        self.expect_compatible(element, &value_type, "Array element type mismatch");
                        let mut i: usize = 0;
                        while i < indices.len()
                            invariant
                                i <= indices.len(),
                                self.checked_from(*old(self)),
                                self.variables == old(self).variables,
                            decreases indices.len() - i,
                        {
                            let idx_type = self.infer_expr_type(&indices[i]);
                            if !is_integer_type(&idx_type) {
                                let ctx = ErrorContext {
                                    primary_location: make_location(1, 1, 1),
                                    secondary_locations: Vec::new(),
                                    help_message: Some(join2("Expected integer type for array index, found ", type_to_string(&idx_type).as_str())),
                                    suggestions: vec![text("Use an integer expression")],
                                };
                                self.report("E0308", "Array index must be integer", ctx);
                            }
                            i = i + 1;
                        }
                    },
                    _ => {
                        let ctx = ErrorContext {
                            primary_location: make_location(1, 1, 1),
                            secondary_locations: Vec::new(),
                            help_message: Some(join3("Cannot index into type '", type_to_string(&obj_type).as_str(), "'. Only arrays support indexing.")),
                            suggestions: vec![text("Use an array type")],
                        };
                        self.report("E0277", "Cannot index non-array type", ctx);
                    },
                }
            },
            Stmt::MemberAssign(obj, field, value) => {
                let obj_type = self.infer_expr_type(obj);
                let value_type = self.infer_expr_type(value);
                if let Type::Struct { name } = &obj_type {
                    if let Some(k) = find_latest(&self.symbols.structs, name.as_str()) {
                        match find_latest(&self.symbols.structs[k].1.fields, field.as_str()) {
                            Some(j) => {
                                let is_mutable = self.symbols.structs[k].1.fields[j].1.is_mutable;
                                let field_type = self.symbols.structs[k].1.fields[j].1.ty.duplicate();
                                if !is_mutable {
                                    let msg = join3("Cannot assign to immutable field '", field.as_str(), "'");
                                    let ctx = ErrorContext {
                                        primary_location: make_location(1, 1, field.as_str().len()),
                                        secondary_locations: Vec::new(),
                                        help_message: Some(join3("Field '", field.as_str(), "' is declared as immutable and cannot be modified.")),
                                        suggestions: vec![join3("Mark field '", field.as_str(), "' as mutable in struct definition")],
                                    };
                                    self.report("E0594", msg.as_str(), ctx);
                                }
                                let msg = join3("Type mismatch in field '", field.as_str(), "' assignment");
                                self.expect_compatible(&field_type, &value_type, msg.as_str());
                            },
                            None => {
                                let msg = join4("No field '", field.as_str(), "' on type '", name.as_str());
                                let ctx = ErrorContext {
                                    primary_location: make_location(1, 1, field.as_str().len()),
                                    secondary_locations: Vec::new(),
                                    help_message: Some(join5("Struct '", name.as_str(), "' does not have a field named '", field.as_str(), "'.")),
                                    suggestions: vec![text("Check field name spelling")],
                                };
                                self.report("E0609", msg.as_str(), ctx);
                            },
                        }
                    }
                }
            },
            Stmt::Break => {},
            Stmt::Continue => {},
        }
    }
}

fn signature_of(params: Vec<(String, Type, ParamModifier)>, return_type: Type, location: SourceLocation) -> (r: FunctionSignature)
    ensures
        r.params == params,
        r.return_type == return_type,
        r.location == location,
        !r.is_builtin,
{
    FunctionSignature { params, return_type, location, is_builtin: false }
}

fn copy_params(ps: &Vec<(String, Type, ParamModifier)>) -> (r: Vec<(String, Type, ParamModifier)>)
    ensures
        r@.len() == ps@.len(),
        forall|i: int| 0 <= i < ps@.len() ==> #[trigger] r@[i].0@ == ps@[i].0@ && r@[i].1@ == ps@[i].1@ && r@[i].2 == ps@[i].2,
{
    let mut out: Vec<(String, Type, ParamModifier)> = Vec::new();
    let mut i: usize = 0;
    while i < ps.len()
        invariant
            i <= ps.len(),
            out@.len() == i,
            forall|j: int| 0 <= j < i ==> #[trigger] out@[j].0@ == ps@[j].0@ && out@[j].1@ == ps@[j].1@ && out@[j].2 == ps@[j].2,
        decreases ps.len() - i,
    {
        out.push((ps[i].0.clone(), ps[i].1.duplicate(), ps[i].2));
        i = i + 1;
    }
    out
}

fn immutable_params(ps: &Vec<(String, Type)>) -> (r: Vec<(String, Type, ParamModifier)>)
    ensures
        r@.len() == ps@.len(),
{
    let mut out: Vec<(String, Type, ParamModifier)> = Vec::new();
    let mut i: usize = 0;
    while i < ps.len()
        invariant
            i <= ps.len(),
            out@.len() == i,
        decreases ps.len() - i,
    {
        out.push((ps[i].0.clone(), ps[i].1.duplicate(), ParamModifier::Immutable));
        i = i + 1;
    }
    out
}

impl TypeChecker {
    /// Frame of the registration phases: scopes, borrows and budget stay.
    pub open spec fn registered_from(&self, before: Self) -> bool {
        &&& self.wf()
        &&& self.variables == before.variables
        &&& self.handler.error_count >= before.handler.error_count
        &&& self.handler.budget() == before.handler.budget()
        &&& forall|c: Seq<char>| before.handler.has_code(c) ==> #[trigger] self.handler.has_code(c)
    }

    /// Records each struct and its fields; a field that may not hold a value
    /// is reported as E0001.
    pub fn register_structs(&mut self, structs: &Vec<StructDef>)
        requires
            old(self).wf(),
        ensures
            final(self).registered_from(*old(self)),
            final(self).symbols.functions == old(self).symbols.functions,
            final(self).symbols.builtin_functions == old(self).symbols.builtin_functions,
            final(self).symbols.imported_functions == old(self).symbols.imported_functions,
            forall|i: int| 0 <= i < structs@.len() ==> latest(final(self).symbols.structs@, #[trigger] structs@[i].name@) is Some,
            !(forall|i: int| 0 <= i < structs@.len() ==> fields_ok(#[trigger] structs@[i].fields@))
                ==> final(self).handler.error_count > 0,
            !(forall|i: int| 0 <= i < structs@.len() ==> fields_ok(#[trigger] structs@[i].fields@))
                ==> final(self).handler.has_code("E0001"@),
    {
        let mut i: usize = 0;
        while i < structs.len()
            invariant
                i <= structs.len(),
                self.registered_from(*old(self)),
                self.symbols.functions == old(self).symbols.functions,
                self.symbols.builtin_functions == old(self).symbols.builtin_functions,
                self.symbols.imported_functions == old(self).symbols.imported_functions,
                self.symbols.structs@.len() >= i,
                forall|j: int| 0 <= j < i ==> latest(self.symbols.structs@, #[trigger] structs@[j].name@) is Some,
                !(forall|j: int| 0 <= j < i ==> fields_ok(#[trigger] structs@[j].fields@)) ==> self.handler.error_count > 0,
                !(forall|j: int| 0 <= j < i ==> fields_ok(#[trigger] structs@[j].fields@)) ==> self.handler.has_code("E0001"@),
            decreases structs.len() - i,
        {
            let sd = &structs[i];
            let mut fields: Vec<(String, FieldInfo)> = Vec::new();
            let mut j: usize = 0;
            let ghost sym = self.symbols;
            while j < sd.fields.len()
                invariant
                    j <= sd.fields.len(),
                    i < structs.len(),
                    *sd == structs@[i as int],
                    self.registered_from(*old(self)),
                    self.symbols == sym,
                    !(forall|k: int| 0 <= k < j ==> declarable(#[trigger] sd.fields@[k].ty@)) ==> self.handler.error_count > 0,
                    !(forall|k: int| 0 <= k < j ==> declarable(#[trigger] sd.fields@[k].ty@)) ==> self.handler.has_code("E0001"@),
                    !(forall|k: int| 0 <= k < i ==> fields_ok(#[trigger] structs@[k].fields@)) ==> self.handler.error_count > 0,
                    !(forall|k: int| 0 <= k < i ==> fields_ok(#[trigger] structs@[k].fields@)) ==> self.handler.has_code("E0001"@),
                decreases sd.fields.len() - j,
            {
                let f = &sd.fields[j];
                self.check_declarable(&f.name, &f.ty, "Field");
                fields.push((f.name.clone(), FieldInfo { ty: f.ty.duplicate(), is_public: f.is_public, is_mutable: f.is_mutable }));
                j = j + 1;
            }
            let info = StructInfo { fields, location: make_location(1, 1, sd.name.as_str().len()) };
            let ghost before = self.symbols.structs@;
            self.symbols.structs.push((sd.name.clone(), info));
            proof {
                assert(self.symbols.structs@.drop_last() == before);
                assert forall|j: int| 0 <= j < i + 1 implies latest(self.symbols.structs@, #[trigger] structs@[j].name@) is Some by {
                    if structs@[j].name@ != sd.name@ {
                        assert(latest(before, structs@[j].name@) is Some);
                    }
                }
                if !(forall|k: int| 0 <= k < i + 1 ==> fields_ok(#[trigger] structs@[k].fields@)) {
                    if forall|k: int| 0 <= k < i ==> fields_ok(#[trigger] structs@[k].fields@) {
                        assert(!fields_ok(structs@[i as int].fields@));
                    }
                }
            }
            i = i + 1;
        }
    }

    /// Records each enum and the shape of its variants.
    pub fn register_enums(&mut self, enums: &Vec<EnumDef>)
        requires
            old(self).wf(),
        ensures
            final(self).registered_from(*old(self)),
            final(self).symbols.functions == old(self).symbols.functions,
            final(self).symbols.builtin_functions == old(self).symbols.builtin_functions,
            final(self).symbols.imported_functions == old(self).symbols.imported_functions,
            final(self).symbols.structs == old(self).symbols.structs,
    {
        let mut i: usize = 0;
        while i < enums.len()
            invariant
                i <= enums.len(),
                self.registered_from(*old(self)),
                self.symbols.functions == old(self).symbols.functions,
                self.symbols.builtin_functions == old(self).symbols.builtin_functions,
                self.symbols.imported_functions == old(self).symbols.imported_functions,
                self.symbols.structs == old(self).symbols.structs,
            decreases enums.len() - i,
        {
            let e = &enums[i];
            let mut variants: Vec<(String, EnumVariantInfo)> = Vec::new();
            let mut j: usize = 0;
            while j < e.variants.len()
                invariant
                    j <= e.variants.len(),
                decreases e.variants.len() - j,
            {
                let entry = match &e.variants[j] {
                    EnumVariant::Simple(name) => (name.clone(), EnumVariantInfo::Simple),
                    EnumVariant::Tuple(name, types) => {
                        let mut copies: Vec<Type> = Vec::new();
                        let mut k: usize = 0;
                        while k < types.len()
                            invariant
                                k <= types.len(),
                            decreases types.len() - k,
                        {
                            copies.push(types[k].duplicate());
                            k = k + 1;
                        }
                        (name.clone(), EnumVariantInfo::Tuple(copies))
                    },
                    EnumVariant::Struct(name, fields) => {
                        let mut copies: Vec<(String, Type)> = Vec::new();
                        let mut k: usize = 0;
                        while k < fields.len()
                            invariant
                                k <= fields.len(),
                            decreases fields.len() - k,
                        {
                            copies.push((fields[k].name.clone(), fields[k].ty.duplicate()));
                            k = k + 1;
                        }
                        (name.clone(), EnumVariantInfo::Struct(copies))
                    },
                };
                variants.push(entry);
                j = j + 1;
            }
            let info = EnumInfo { variants, location: make_location(1, 1, e.name.as_str().len()) };
            self.symbols.enums.push((e.name.clone(), info));
            i = i + 1;
        }
    }

    fn register_extern_function(&mut self, name: &String, params: &Vec<(String, Type)>, return_type: &Type)
        requires
            old(self).wf(),
        ensures
            final(self).registered_from(*old(self)),
            final(self).symbols.builtin_functions == old(self).symbols.builtin_functions,
            final(self).symbols.imported_functions == old(self).symbols.imported_functions,
            final(self).symbols.structs == old(self).symbols.structs,
    {
        let sig = signature_of(immutable_params(params), return_type.duplicate(), make_location(1, 1, name.as_str().len()));
        self.symbols.functions.push((name.clone(), sig));
    }

    /// Records the signatures of functions implemented outside the program.
    pub fn register_externs(&mut self, externs: &Vec<ExternDecl>)
        requires
            old(self).wf(),
        ensures
            final(self).registered_from(*old(self)),
            final(self).symbols.builtin_functions == old(self).symbols.builtin_functions,
            final(self).symbols.imported_functions == old(self).symbols.imported_functions,
            final(self).symbols.structs == old(self).symbols.structs,
    {
        let mut i: usize = 0;
        while i < externs.len()
            invariant
                i <= externs.len(),
                self.registered_from(*old(self)),
                self.symbols.builtin_functions == old(self).symbols.builtin_functions,
                self.symbols.imported_functions == old(self).symbols.imported_functions,
                self.symbols.structs == old(self).symbols.structs,
            decreases externs.len() - i,
        {
            match &externs[i] {
                ExternDecl::Single { func } => {
                    self.register_extern_function(&func.name, &func.params, &func.return_type);
                },
                ExternDecl::Block { functions } => {
                    let mut j: usize = 0;
                    while j < functions.len()
                        invariant
                            j <= functions.len(),
                            self.registered_from(*old(self)),
                            self.symbols.builtin_functions == old(self).symbols.builtin_functions,
                            self.symbols.imported_functions == old(self).symbols.imported_functions,
                            self.symbols.structs == old(self).symbols.structs,
                        decreases functions.len() - j,
                    {
                        let f = &functions[j];
                        self.register_extern_function(&f.name, &f.params, &f.return_type);
                        j = j + 1;
                    }
                },
            }
            i = i + 1;
        }
    }

    /// Makes each imported name callable, with any arguments and an `any` result.
    pub fn register_imports(&mut self, imports: &Vec<ImportDecl>)
        requires
            old(self).wf(),
        ensures
            final(self).registered_from(*old(self)),
            final(self).symbols.functions == old(self).symbols.functions,
            final(self).symbols.builtin_functions == old(self).symbols.builtin_functions,
            final(self).symbols.structs == old(self).symbols.structs,
            forall|i: int| 0 <= i < imports@.len() ==> latest(
                final(self).symbols.imported_functions@,
                match #[trigger] imports@[i] {
                    ImportDecl::LibraryImport { name } => name@,
                    ImportDecl::FileImport { name } => name@,
                },
            ) is Some,
    {
        let mut i: usize = 0;
        while i < imports.len()
            invariant
                i <= imports.len(),
                self.registered_from(*old(self)),
                self.symbols.functions == old(self).symbols.functions,
                self.symbols.builtin_functions == old(self).symbols.builtin_functions,
                self.symbols.structs == old(self).symbols.structs,
                forall|j: int| 0 <= j < i ==> latest(
                    self.symbols.imported_functions@,
                    match #[trigger] imports@[j] {
                        ImportDecl::LibraryImport { name } => name@,
                        ImportDecl::FileImport { name } => name@,
                    },
                ) is Some,
            decreases imports.len() - i,
        {
            let name = match &imports[i] {
                ImportDecl::LibraryImport { name } => name,
                ImportDecl::FileImport { name } => name,
            };
            let sig = signature_of(Vec::new(), Type::Any, make_location(1, 1, name.as_str().len()));
            let ghost before = self.symbols.imported_functions@;
            self.symbols.imported_functions.push((name.clone(), sig));
            proof {
                assert(self.symbols.imported_functions@.drop_last() == before);
            }
            i = i + 1;
        }
    }

    /// Records the program's functions. A name that a built-in or an import
    /// already takes is reported as E0428.
    pub fn register_functions(&mut self, functions: &Vec<Function>)
        requires
            old(self).wf(),
        ensures
            final(self).registered_from(*old(self)),
            final(self).symbols.builtin_functions == old(self).symbols.builtin_functions,
            final(self).symbols.imported_functions == old(self).symbols.imported_functions,
            final(self).symbols.structs == old(self).symbols.structs,
            (exists|i: int| 0 <= i < functions@.len() && (latest(old(self).symbols.builtin_functions@, #[trigger] functions@[i].name@) is Some
                || latest(old(self).symbols.imported_functions@, functions@[i].name@) is Some))
                ==> final(self).handler.error_count > 0,
    {
        let mut i: usize = 0;
        while i < functions.len()
            invariant
                i <= functions.len(),
                self.registered_from(*old(self)),
                self.symbols.builtin_functions == old(self).symbols.builtin_functions,
                self.symbols.imported_functions == old(self).symbols.imported_functions,
                self.symbols.structs == old(self).symbols.structs,
                (exists|j: int| 0 <= j < i && (latest(old(self).symbols.builtin_functions@, #[trigger] functions@[j].name@) is Some
                    || latest(old(self).symbols.imported_functions@, functions@[j].name@) is Some))
                    ==> self.handler.error_count > 0,
            decreases functions.len() - i,
        {
            let func = &functions[i];
            let loc = make_location(1, 1, func.name.as_str().len());
            if find_latest(&self.symbols.builtin_functions, func.name.as_str()).is_some() {
                let msg = join3("Function '", func.name.as_str(), "' conflicts with built-in function");
                let ctx = ErrorContext {
                    primary_location: loc.duplicate(),
                    secondary_locations: Vec::new(),
                    help_message: Some(join3("The function name '", func.name.as_str(), "' is reserved for a built-in function.\n    Built-in functions cannot be redefined.")),
                    suggestions: vec![join3("Rename function '", func.name.as_str(), "' to something else"), text("Choose a different function name")],
                };
                self.report("E0428", msg.as_str(), ctx);
            }
            if let Some(k) = find_latest(&self.symbols.imported_functions, func.name.as_str()) {
                let msg = join3("Function '", func.name.as_str(), "' conflicts with imported function");
                let ctx = ErrorContext {
                    primary_location: loc.duplicate(),
                    secondary_locations: vec![(self.symbols.imported_functions[k].1.location.duplicate(), text("imported here"))],
                    help_message: Some(join3("The function name '", func.name.as_str(), "' is already imported from a module.\n    Cannot define a function with the same name as an import.")),
                    suggestions: vec![join3("Rename function '", func.name.as_str(), "' to something else"), join3("Remove the import of '", func.name.as_str(), "'")],
                };
                self.report("E0428", msg.as_str(), ctx);
            }
            let sig = signature_of(copy_params(&func.params), func.return_type.duplicate(), loc);
            self.symbols.functions.push((func.name.clone(), sig));
            i = i + 1;
        }
    }

    /// Records each impl method under the name `Struct.method`.
    pub fn register_impl_methods(&mut self, impls: &Vec<ImplBlock>)
        requires
            old(self).wf(),
        ensures
            final(self).registered_from(*old(self)),
            final(self).symbols.builtin_functions == old(self).symbols.builtin_functions,
            final(self).symbols.imported_functions == old(self).symbols.imported_functions,
            final(self).symbols.structs == old(self).symbols.structs,
    {
        let mut i: usize = 0;
        while i < impls.len()
            invariant
                i <= impls.len(),
                self.registered_from(*old(self)),
                self.symbols.builtin_functions == old(self).symbols.builtin_functions,
                self.symbols.imported_functions == old(self).symbols.imported_functions,
                self.symbols.structs == old(self).symbols.structs,
            decreases impls.len() - i,
        {
            let block = &impls[i];
            let mut j: usize = 0;
            while j < block.methods.len()
                invariant
                    j <= block.methods.len(),
                    self.registered_from(*old(self)),
                    self.symbols.builtin_functions == old(self).symbols.builtin_functions,
                    self.symbols.imported_functions == old(self).symbols.imported_functions,
                    self.symbols.structs == old(self).symbols.structs,
                decreases block.methods.len() - j,
            {
                let m = &block.methods[j];
                let full_name = join3(block.struct_name.as_str(), ".", m.name.as_str());
                let sig = signature_of(copy_params(&m.params), m.return_type.duplicate(), make_location(1, 1, m.name.as_str().len()));
                self.symbols.functions.push((full_name, sig));
                j = j + 1;
            }
            i = i + 1;
        }
    }
}

impl TypeChecker {
    /// Checks the parameters of a function or method: each must be
    /// declarable, and references seed the borrow tracker.
    fn check_params(&mut self, params: &Vec<(String, Type, ParamModifier)>)
        requires
            old(self).wf(),
        ensures
            final(self).checked_from(*old(self)),
            !params_ok(params@) ==> final(self).handler.error_count > 0,
            !params_ok(params@) ==> final(self).handler.has_code("E0001"@),
    {
        let mut j: usize = 0;
        while j < params.len()
            invariant
                j <= params.len(),
                self.checked_from(*old(self)),
                !(forall|k: int| 0 <= k < j ==> declarable(#[trigger] params@[k].1@)) ==> self.handler.error_count > 0,
                !(forall|k: int| 0 <= k < j ==> declarable(#[trigger] params@[k].1@)) ==> self.handler.has_code("E0001"@),
            decreases params.len() - j,
        {
            let (name, ty, modifier) = (&params[j].0, &params[j].1, params[j].2);
            self.check_declarable(name, ty, "Parameter");
            match modifier {
                ParamModifier::MutableReference => self.borrow_mutably(name, "' as mutable more than once"),
                ParamModifier::Reference => self.borrow_immutably(name),
                _ => {},
            }
            self.add_variable(name.clone(), ty.duplicate());
            j = j + 1;
        }
    }

    /// Checks a body statement by statement until the error budget runs out.
    fn check_body(&mut self, body: &Vec<Stmt>, return_type: &Type)
        requires
            old(self).wf(),
        ensures
            final(self).checked_from(*old(self)),
            !block_decls_ok(body@) ==> final(self).handler.error_count > 0,
            !block_decls_ok(body@) && final(self).handler.error_count < final(self).handler.budget() ==> final(self).handler.has_code("E0001"@),
            body_flagged(old(self).symbols, body@, return_type@) ==> final(self).handler.error_count > 0,
    {
        let mut i: usize = 0;
        while i < body.len()
            invariant
                i <= body.len(),
                self.checked_from(*old(self)),
                !block_decls_ok(body@.subrange(0, i as int)) ==> self.handler.error_count > 0,
                !block_decls_ok(body@.subrange(0, i as int)) && self.handler.error_count < self.handler.budget() ==> self.handler.has_code("E0001"@),
                (exists|k: int| 0 <= k < i && #[trigger] always_flagged(old(self).symbols, body@[k], return_type@))
                    ==> self.handler.error_count > 0,
            decreases body.len() - i,
        {
            if !self.handler.should_continue() {
                return;
            }
            proof {
                assert(body@.subrange(0, i + 1).drop_last() =~= body@.subrange(0, i as int));
            }
            let ghost vars_i = self.variables@;
            self.check_statement(&body[i], return_type);
            proof {
                if always_flagged(old(self).symbols, body@[i as int], return_type@) {
                    assert(stmt_flagged(old(self).symbols, vars_i, body@[i as int], return_type@));
                }
            }
            i = i + 1;
        }
        proof {
            assert(body@.subrange(0, i as int) =~= body@);
        }
    }

    /// Checks one function in a scope of its own.
    pub fn check_function(&mut self, func: &Function)
        requires
            old(self).wf(),
        ensures
            final(self).checked_from(*old(self)),
            final(self).variables@ == old(self).variables@,
            !params_ok(func.params@) ==> final(self).handler.error_count > 0,
            !params_ok(func.params@) ==> final(self).handler.has_code("E0001"@),
            !block_decls_ok(func.body@) ==> final(self).handler.error_count > 0,
            !block_decls_ok(func.body@) && final(self).handler.error_count < final(self).handler.budget() ==> final(self).handler.has_code("E0001"@),
            body_flagged(old(self).symbols, func.body@, func.return_type@) ==> final(self).handler.error_count > 0,
    {
        self.enter_scope();
        self.current_function_return_type = Some(func.return_type.duplicate());
        self.current_line = 1;
        self.check_params(&func.params);
        self.check_body(&func.body, &func.return_type);
        self.current_function_return_type = None;
        self.exit_scope();
        proof {
            assert(self.variables@ =~= old(self).variables@);
        }
    }

    /// Checks the methods of an impl block; the struct must be known (E0412).
    pub fn check_impl_block(&mut self, impl_block: &ImplBlock)
        requires
            old(self).wf(),
        ensures
            final(self).checked_from(*old(self)),
            final(self).variables@ == old(self).variables@,
            latest(old(self).symbols.structs@, impl_block.struct_name@) is None ==> final(self).handler.error_count > 0,
            !impl_decls_ok(*impl_block) ==> final(self).handler.error_count > 0,
            !impl_decls_ok(*impl_block) && final(self).handler.error_count < final(self).handler.budget() ==> final(self).handler.has_code("E0001"@),
            impl_flagged(old(self).symbols, *impl_block) ==> final(self).handler.error_count > 0,
    {
        let name = &impl_block.struct_name;
        if find_latest(&self.symbols.structs, name.as_str()).is_none() {
            let msg = join3("Cannot find struct '", name.as_str(), "' for impl block");
            let ctx = ErrorContext {
                primary_location: make_location(1, 1, name.as_str().len()),
                secondary_locations: Vec::new(),
                help_message: Some(join3("Struct '", name.as_str(), "' must be defined before implementing methods for it.")),
                suggestions: vec![join3("Define struct '", name.as_str(), "' before impl block")],
            };
            self.report("E0412", msg.as_str(), ctx);
        }
        let mut j: usize = 0;
        while j < impl_block.methods.len()
            invariant
                j <= impl_block.methods.len(),
                self.checked_from(*old(self)),
                self.variables@ == old(self).variables@,
                latest(old(self).symbols.structs@, impl_block.struct_name@) is None ==> self.handler.error_count > 0,
                !(forall|k: int| 0 <= k < j ==> params_ok(#[trigger] impl_block.methods@[k].params@)
                    && block_decls_ok(impl_block.methods@[k].body@)) ==> self.handler.error_count > 0,
                !(forall|k: int| 0 <= k < j ==> params_ok(#[trigger] impl_block.methods@[k].params@)
                    && block_decls_ok(impl_block.methods@[k].body@)) && self.handler.error_count < self.handler.budget() ==> self.handler.has_code("E0001"@),
                (exists|k: int| 0 <= k < j && #[trigger] body_flagged(old(self).symbols, impl_block.methods@[k].body@, impl_block.methods@[k].return_type@))
                    ==> self.handler.error_count > 0,
            decreases impl_block.methods.len() - j,
        {
            let method = &impl_block.methods[j];
            self.enter_scope();
            self.current_function_return_type = Some(method.return_type.duplicate());
            if let Some(self_mod) = method.self_modifier {
                let self_name = text("self");
                self.add_variable(self_name.clone(), Type::Struct { name: name.clone() });
                match self_mod {
                    SelfModifier::Mutable => self.borrow_mutably(&self_name, "' as mutable more than once"),
                    SelfModifier::Reference | SelfModifier::Borrow => self.borrow_immutably(&self_name),
                    _ => {},
                }
            }
            self.check_params(&method.params);
            self.check_body(&method.body, &method.return_type);
            self.current_function_return_type = None;
            self.exit_scope();
            proof {
                assert(self.variables@ =~= old(self).variables@);
            }
            j = j + 1;
            proof {
                assert forall|k: int| 0 <= k < j && #[trigger] body_flagged(old(self).symbols, impl_block.methods@[k].body@, impl_block.methods@[k].return_type@)
                    implies self.handler.error_count > 0 by {
                    if k < j - 1 {
                        assert(exists|k2: int| 0 <= k2 < j - 1 && #[trigger] body_flagged(old(self).symbols, impl_block.methods@[k2].body@, impl_block.methods@[k2].return_type@));
                    }
                }
            }
        }
        proof {
            if !impl_decls_ok(*impl_block) {
                let k = choose|k: int| 0 <= k < impl_block.methods@.len() && !(params_ok(#[trigger] impl_block.methods@[k].params@)
                    && block_decls_ok(impl_block.methods@[k].body@));
                assert(!(params_ok(impl_block.methods@[k].params@) && block_decls_ok(impl_block.methods@[k].body@)));
            }
        }
    }

    /// Runs every phase over a program and reports whether it is free of errors.
    pub fn check_program(
        &mut self,
        program: &Program,
        structs: &Vec<StructDef>,
        enums: &Vec<EnumDef>,
        externs: &Vec<ExternDecl>,
        impls: &Vec<ImplBlock>,
        imports: &Vec<ImportDecl>,
    ) -> (r: bool)
        requires
            old(self).wf(),
        ensures
            final(self).wf(),
            r == (final(self).handler.error_count == 0),
            r ==> program_void_free(program.functions@, structs@, impls@),
            !program_void_free(program.functions@, structs@, impls@) && final(self).handler.error_count < final(self).handler.budget()
                ==> final(self).handler.has_code("E0001"@),
            old(self).handler.error_count > 0 ==> !r,
            r ==> forall|k: int| 0 <= k < program.functions@.len() ==> !body_flagged(
                final(self).symbols,
                #[trigger] program.functions@[k].body@,
                program.functions@[k].return_type@,
            ),
            r ==> forall|k: int| 0 <= k < impls@.len() ==> !impl_flagged(final(self).symbols, #[trigger] impls@[k]),
    {
        self.register_structs(structs);
        self.register_enums(enums);
        self.register_externs(externs);
        self.register_imports(imports);
        self.register_functions(&program.functions);
        self.register_impl_methods(impls);
        let ghost after_registration = *self;
        let mut i: usize = 0;
        while i < program.functions.len()
            invariant
                i <= program.functions.len(),
                self.checked_from(after_registration),
                after_registration.handler.error_count >= old(self).handler.error_count,
                !(forall|k: int| 0 <= k < structs@.len() ==> fields_ok(#[trigger] structs@[k].fields@))
                    ==> after_registration.handler.error_count > 0,
                !(forall|k: int| 0 <= k < structs@.len() ==> fields_ok(#[trigger] structs@[k].fields@))
                    ==> after_registration.handler.has_code("E0001"@),
                !(forall|k: int| 0 <= k < i ==> params_ok(#[trigger] program.functions@[k].params@)
                    && block_decls_ok(program.functions@[k].body@)) ==> self.handler.error_count > 0,
                !(forall|k: int| 0 <= k < i ==> params_ok(#[trigger] program.functions@[k].params@)
                    && block_decls_ok(program.functions@[k].body@)) && self.handler.error_count < self.handler.budget() ==> self.handler.has_code("E0001"@),
                (exists|k: int| 0 <= k < i && body_flagged(
                    after_registration.symbols,
                    #[trigger] program.functions@[k].body@,
                    program.functions@[k].return_type@,
                )) ==> self.handler.error_count > 0,
            decreases program.functions.len() - i,
        {
            self.check_function(&program.functions[i]);
            i = i + 1;
        }
        let ghost after_functions = *self;
        let mut b: usize = 0;
        while b < impls.len()
            invariant
                b <= impls.len(),
                self.checked_from(after_functions),
                after_functions.handler.error_count >= old(self).handler.error_count,
                !(forall|k: int| 0 <= k < b ==> impl_decls_ok(#[trigger] impls@[k])) ==> self.handler.error_count > 0,
                !(forall|k: int| 0 <= k < b ==> impl_decls_ok(#[trigger] impls@[k])) && self.handler.error_count < self.handler.budget() ==> self.handler.has_code("E0001"@),
                after_functions.symbols == after_registration.symbols,
                (exists|k: int| 0 <= k < b && impl_flagged(after_registration.symbols, #[trigger] impls@[k]))
                    ==> self.handler.error_count > 0,
                (exists|k: int| 0 <= k < program.functions@.len() && body_flagged(
                    after_registration.symbols,
                    #[trigger] program.functions@[k].body@,
                    program.functions@[k].return_type@,
                )) ==> after_functions.handler.error_count > 0,
            decreases impls.len() - b,
        {
            self.check_impl_block(&impls[b]);
            b = b + 1;
        }
        let ok = !self.handler.has_errors();
        ok
    }
}

} // verus!
