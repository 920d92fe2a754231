use vstd::prelude::*;
use vstd::utf8::encode_utf8;
use crate::config::ArchConfig;
use crate::diagnostics::{join2, text, DiagnosticHandler, SourceLocation};
use crate::ir::IR;
use crate::registry::{type_id, TypeRegistry};
use crate::text::{contains_text, dec, i64_text, occurs_in, radix_text, signed_dec, digits, usize_text};
use crate::types::{Ty, Type};

verus! {

/// A variable known to the emitter: its C name and its type.
#[derive(Debug)]
pub struct VarInfo {
    pub c_name: String,
    pub ty: Type,
}

/// A method known to the emitter, keyed by `Struct.method`.
#[derive(Debug)]
pub struct MethodInfo {
    pub params: Vec<(String, Type)>,
    pub return_type: Type,
    pub is_instance: bool,
}

/// A struct known to the emitter: its fields and whether each is public.
#[derive(Debug)]
pub struct StructInfo {
    pub fields: Vec<(String, Type, bool)>,
}

/// A source-level function known to the emitter.
#[derive(Debug)]
pub struct FunctionInfo {
    pub params: Vec<(String, Type)>,
    pub return_type: Type,
}

/// The result of lowering an expression: the C local that holds it, and its type.
pub struct CodegenResult(pub String, pub Type);

impl CodegenResult {
    /// The value that stands for an expression that could not be lowered.
    pub fn default() -> (r: Self)
        ensures
            r.0@ == "_error_"@,
            r.1@ == Ty::Void,
    {
        CodegenResult(text("_error_"), Type::Void)
    }
}

/// Emission state of one compilation unit.
pub struct Codegen {
    pub arch: ArchConfig,
    pub type_registry: TypeRegistry,
    pub impl_methods: Vec<(String, MethodInfo)>,
    pub var_count: usize,
    pub label_count: usize,
    pub vars: Vec<(String, VarInfo)>,
    pub owned_vars: Vec<String>,
    pub structs: Vec<(String, StructInfo)>,
    pub user_functions: Vec<(String, FunctionInfo)>,
    pub ir: IR,
    pub diagnostics: DiagnosticHandler,
    pub source_code: String,
    pub current_file: String,
    pub current_return_type: Option<Type>,
    pub scope_depth: usize,
}

/// The name of the `k`-th temporary.
pub open spec fn temp_name(k: nat) -> Seq<char> {
    "t"@ + dec(k)
}

/// The name of the `k`-th label.
pub open spec fn label_name(k: nat) -> Seq<char> {
    "label_"@ + dec(k)
}

proof fn lemma_digits_len(n: nat)
    ensures
        n >= 10 ==> digits(n, 10).len() >= 2,
        digits(n, 10).len() >= 1,
    decreases n,
{
    if n >= 10 {
        lemma_digits_len(n / 10);
    }
}

proof fn lemma_digit_char_injective(x: nat, y: nat)
    requires
        x < 10,
        y < 10,
        crate::text::digit_char(x) == crate::text::digit_char(y),
    ensures
        x == y,
{
}

/// Decimal text is injective: different numbers are written differently.
pub proof fn lemma_dec_injective(a: nat, b: nat)
    requires
        dec(a) == dec(b),
    ensures
        a == b,
    decreases a,
{
    lemma_digits_len(a);
    lemma_digits_len(b);
    if a < 10 && b < 10 {
        assert(dec(a) == seq![crate::text::digit_char(a)]);
        assert(dec(b) == seq![crate::text::digit_char(b)]);
        assert(dec(a)[0] == dec(b)[0]);
        assert(dec(a)[0] == crate::text::digit_char(a));
        assert(dec(b)[0] == crate::text::digit_char(b));
        lemma_digit_char_injective(a, b);
    } else if a >= 10 && b >= 10 {
        let pa = digits(a / 10, 10);
        let pb = digits(b / 10, 10);
        assert(dec(a) == pa.push(crate::text::digit_char(a % 10)));
        assert(dec(b) == pb.push(crate::text::digit_char(b % 10)));
        assert(pa == dec(a).drop_last());
        assert(pb == dec(b).drop_last());
        assert(dec(a).last() == dec(b).last());
        assert(dec(a).last() == crate::text::digit_char(a % 10));
        assert(dec(b).last() == crate::text::digit_char(b % 10));
        lemma_digit_char_injective(a % 10, b % 10);
        assert(a / 10 < a);
        lemma_dec_injective(a / 10, b / 10);
        assert(a == 10 * (a / 10) + a % 10);
        assert(b == 10 * (b / 10) + b % 10);
    } else if a < 10 {
        assert(dec(a).len() == 1);
    } else {
        assert(dec(b).len() == 1);
    }
}

/// Freshness: temporaries and labels made from different counter values differ.
pub proof fn lemma_fresh_names_distinct(k1: nat, k2: nat)
    requires
        k1 != k2,
    ensures
        temp_name(k1) != temp_name(k2),
        label_name(k1) != label_name(k2),
{
    reveal_strlit("t");
    reveal_strlit("label_");
    if temp_name(k1) == temp_name(k2) {
        assert(dec(k1) =~= temp_name(k1).subrange(1, temp_name(k1).len() as int));
        assert(dec(k2) =~= temp_name(k2).subrange(1, temp_name(k2).len() as int));
        lemma_dec_injective(k1, k2);
    }
    if label_name(k1) == label_name(k2) {
        let n = "label_"@.len();
        assert(dec(k1) =~= label_name(k1).subrange(n as int, label_name(k1).len() as int));
        assert(dec(k2) =~= label_name(k2).subrange(n as int, label_name(k2).len() as int));
        lemma_dec_injective(k1, k2);
    }
}

impl Codegen {
    pub open spec fn wf(&self) -> bool {
        self.type_registry.wf()
    }

    pub fn new(arch: ArchConfig, source_code: String, filename: String) -> (r: Self)
        ensures
            r.wf(),
            r.var_count == 0,
            r.label_count == 0,
            r.arch == arch,
            r.current_file == filename,
            r.ir.headers@.len() == 0,
            r.ir.forward_decls@.len() == 0,
            r.ir.functions@.len() == 0,
            r.diagnostics.error_count == 0,
            r.diagnostics.warning_count == 0,
            r.diagnostics.reported().len() == 0,
            r.source_code == source_code,
            r.vars@.len() == 0,
            r.owned_vars@.len() == 0,
            r.structs@.len() == 0,
            r.impl_methods@.len() == 0,
            r.user_functions@.len() == 0,
            r.current_return_type is None,
            r.scope_depth == 0,
            r.type_registry.ids().len() == 0,
    {
        let diagnostics = DiagnosticHandler::new(source_code.clone());
        Codegen {
            arch,
            type_registry: TypeRegistry::new(),
            impl_methods: Vec::new(),
            var_count: 0,
            label_count: 0,
            vars: Vec::new(),
            owned_vars: Vec::new(),
            structs: Vec::new(),
            user_functions: Vec::new(),
            ir: IR::new(),
            diagnostics,
            source_code,
            current_file: filename,
            current_return_type: None,
            scope_depth: 0,
        }
    }

    /// A new temporary `t<k>`, where `k` counts the temporaries made so far.
    pub fn fresh_var(&mut self) -> (r: String)
        requires
            old(self).var_count < usize::MAX,
        ensures
            r@ == temp_name(old(self).var_count as nat),
            final(self).var_count == old(self).var_count + 1,
            final(self).label_count == old(self).label_count,
            final(self).ir == old(self).ir,
            final(self).type_registry == old(self).type_registry,
            final(self).diagnostics == old(self).diagnostics,
            final(self).arch == old(self).arch,
            final(self).vars == old(self).vars,
            final(self).owned_vars == old(self).owned_vars,
            final(self).structs == old(self).structs,
            final(self).impl_methods == old(self).impl_methods,
            final(self).user_functions == old(self).user_functions,
            final(self).current_return_type == old(self).current_return_type,
            final(self).source_code == old(self).source_code,
            final(self).current_file == old(self).current_file,
    {
        let v = join2("t", usize_text(self.var_count).as_str());
        self.var_count = self.var_count + 1;
        v
    }

    /// A new label `label_<k>`, where `k` counts the labels made so far.
    pub fn fresh_label(&mut self) -> (r: String)
        requires
            old(self).label_count < usize::MAX,
        ensures
            r@ == label_name(old(self).label_count as nat),
            final(self).label_count == old(self).label_count + 1,
            final(self).var_count == old(self).var_count,
            final(self).ir == old(self).ir,
            final(self).type_registry == old(self).type_registry,
            final(self).diagnostics == old(self).diagnostics,
            final(self).arch == old(self).arch,
            final(self).vars == old(self).vars,
            final(self).owned_vars == old(self).owned_vars,
            final(self).structs == old(self).structs,
            final(self).impl_methods == old(self).impl_methods,
            final(self).user_functions == old(self).user_functions,
            final(self).current_return_type == old(self).current_return_type,
            final(self).source_code == old(self).source_code,
            final(self).current_file == old(self).current_file,
    {
        let l = join2("label_", usize_text(self.label_count).as_str());
        self.label_count = self.label_count + 1;
        l
    }

    /// A new temporary, or an error once the counter is exhausted.
    pub(crate) fn temp(&mut self) -> (r: Result<String, ()>)
        ensures
            r is Ok ==> r->Ok_0@ == temp_name(old(self).var_count as nat) && final(self).var_count
                == old(self).var_count + 1,
            r is Err ==> final(self).var_count == old(self).var_count && old(self).var_count == usize::MAX,
            final(self).label_count == old(self).label_count,
            final(self).ir == old(self).ir,
            final(self).type_registry == old(self).type_registry,
            final(self).diagnostics == old(self).diagnostics,
            final(self).arch == old(self).arch,
            final(self).vars == old(self).vars,
            final(self).owned_vars == old(self).owned_vars,
            final(self).structs == old(self).structs,
            final(self).impl_methods == old(self).impl_methods,
            final(self).user_functions == old(self).user_functions,
            final(self).current_return_type == old(self).current_return_type,
            final(self).source_code == old(self).source_code,
            final(self).current_file == old(self).current_file,
    {
        if self.var_count < usize::MAX {
            Ok(self.fresh_var())
        } else {
            Err(())
        }
    }

    /// A new label, or an error once the counter is exhausted.
    pub(crate) fn label(&mut self) -> (r: Result<String, ()>)
        ensures
            r is Ok ==> r->Ok_0@ == label_name(old(self).label_count as nat) && final(self).label_count
                == old(self).label_count + 1,
            r is Err ==> final(self).label_count == old(self).label_count && old(self).label_count == usize::MAX,
            final(self).var_count == old(self).var_count,
            final(self).ir == old(self).ir,
            final(self).type_registry == old(self).type_registry,
            final(self).diagnostics == old(self).diagnostics,
            final(self).arch == old(self).arch,
            final(self).vars == old(self).vars,
            final(self).owned_vars == old(self).owned_vars,
            final(self).structs == old(self).structs,
            final(self).impl_methods == old(self).impl_methods,
            final(self).user_functions == old(self).user_functions,
            final(self).current_return_type == old(self).current_return_type,
            final(self).source_code == old(self).source_code,
            final(self).current_file == old(self).current_file,
    {
        if self.label_count < usize::MAX {
            Ok(self.fresh_label())
        } else {
            Err(())
        }
    }

    /// The pair that stands for an expression that could not be lowered.
    pub fn error_value() -> (r: (String, Type))
        ensures
            r.0@ == "_error_"@,
            r.1@ == Ty::Void,
    {
        (text("_error_"), Type::Void)
    }

    /// A fresh name for a value that failed to lower.
    pub fn error_var(&mut self) -> (r: String)
        requires
            old(self).var_count < usize::MAX,
        ensures
            r@ == temp_name(old(self).var_count as nat) + "_error"@,
            final(self).var_count == old(self).var_count + 1,
    {
        let tmp = self.fresh_var();
        join2(tmp.as_str(), "_error")
    }

    /// Start of the current file.
    pub fn default_location(&self) -> (r: SourceLocation)
        ensures
            r.file == self.current_file,
            r.line == 0,
            r.column == 0,
            r.length == 1,
    {
        SourceLocation { file: self.current_file.clone(), line: 0, column: 0, length: 1 }
    }
}

/// Number of line breaks in `s`.
pub open spec fn newlines(s: Seq<char>) -> nat
    decreases s.len(),
{
    if s.len() == 0 {
        0
    } else {
        newlines(s.drop_last()) + if s.last() == '\n' {
            1nat
        } else {
            0nat
        }
    }
}

/// Index just past the last line break of `s`, 0 when there is none.
pub open spec fn line_start(s: Seq<char>) -> nat
    decreases s.len(),
{
    if s.len() == 0 {
        0
    } else if s.last() == '\n' {
        s.len() as nat
    } else {
        line_start(s.drop_last())
    }
}

proof fn lemma_line_start_le(s: Seq<char>)
    ensures
        line_start(s) <= s.len(),
        newlines(s) <= s.len(),
    decreases s.len(),
{
    if s.len() > 0 {
        lemma_line_start_le(s.drop_last());
    }
}

impl Codegen {
    /// The location of the span that starts `offset` characters into the
    /// source and is `len` characters long: line and column count from 1, and
    /// the length is at least 1.
    pub fn make_location(&self, offset: usize, len: usize) -> (r: SourceLocation)
        requires
            offset <= self.source_code@.len(),
            offset < usize::MAX,
        ensures
            r.file == self.current_file,
            r.line == newlines(self.source_code@.subrange(0, offset as int)) + 1,
            r.column == offset - line_start(self.source_code@.subrange(0, offset as int)) + 1,
            r.length == if len >= 1 {
                len
            } else {
                1
            },
    {
        let src = self.source_code.as_str();
        let ghost s = self.source_code@;
        let mut count: usize = 0;
        let mut start: usize = 0;
        let mut i: usize = 0;
        proof {
            assert(s.subrange(0, 0) =~= Seq::<char>::empty());
        }
        while i < offset
            invariant
                s == self.source_code@,
                src@ == s,
                offset <= s.len(),
                offset < usize::MAX,
                i <= offset,
                count == newlines(s.subrange(0, i as int)),
                start == line_start(s.subrange(0, i as int)),
                count <= i,
                start <= i,
            decreases offset - i,
        {
            proof {
                assert(s.subrange(0, i + 1).drop_last() =~= s.subrange(0, i as int));
            }
            let c = src.get_char(i);
            if c == '\n' {
                count = count + 1;
                start = i + 1;
            }
            i = i + 1;
        }
        SourceLocation {
            file: self.current_file.clone(),
            line: count + 1,
            column: offset - start + 1,
            length: if len >= 1 {
                len
            } else {
                1
            },
        }
    }
}

/// `c` as it is written inside a C string literal.
pub open spec fn escape_char(c: char) -> Seq<char> {
    if c == '\\' {
        seq!['\\', '\\']
    } else if c == '"' {
        seq!['\\', '"']
    } else if c == '\n' {
        seq!['\\', 'n']
    } else if c == '\r' {
        seq!['\\', 'r']
    } else if c == '\t' {
        seq!['\\', 't']
    } else {
        seq![c]
    }
}

/// `s` as it is written inside a C string literal.
pub open spec fn escaped(s: Seq<char>) -> Seq<char>
    decreases s.len(),
{
    if s.len() == 0 {
        Seq::empty()
    } else {
        escaped(s.drop_last()) + escape_char(s.last())
    }
}

fn escape(s: &str) -> (r: String)
    ensures
        r@ == escaped(s@),
{
    let n = s.unicode_len();
    let mut out = String::new();
    let mut i: usize = 0;
    while i < n
        invariant
            n == s@.len(),
            i <= n,
            out@ == escaped(s@.subrange(0, i as int)),
        decreases n - i,
    {
        proof {
            assert(s@.subrange(0, i + 1).drop_last() =~= s@.subrange(0, i as int));
        }
        let c = s.get_char(i);
        let ghost before = out@;
        if c == '\\' {
            crate::text::push_char(&mut out, '\\');
            crate::text::push_char(&mut out, '\\');
        } else if c == '"' {
            crate::text::push_char(&mut out, '\\');
            crate::text::push_char(&mut out, '"');
        } else if c == '\n' {
            crate::text::push_char(&mut out, '\\');
            crate::text::push_char(&mut out, 'n');
        } else if c == '\r' {
            crate::text::push_char(&mut out, '\\');
            crate::text::push_char(&mut out, 'r');
        } else if c == '\t' {
            crate::text::push_char(&mut out, '\\');
            crate::text::push_char(&mut out, 't');
        } else {
            crate::text::push_char(&mut out, c);
        }
        proof {
            assert(out@ =~= before + escape_char(c));
        }
        i = i + 1;
    }
    proof {
        assert(s@.subrange(0, i as int) =~= s@);
    }
    out
}

/// The run-time helpers of owned strings: `string_concat` (allocate, copy
/// both, terminate), `int_to_str` (format into a scratch buffer, copy) and
/// `string_from_const` (borrow the pointer, take the length).
pub open spec fn string_helpers() -> Seq<char> {
    "\nstatic String string_concat(String s1, String s2) {\n    String res;\n    res.len = s1.len + s2.len;\n    res.ptr = (char*)malloc(res.len + 1);\n    if (res.ptr) {\n        memcpy(res.ptr, s1.ptr, s1.len);\n        memcpy(res.ptr + s1.len, s2.ptr, s2.len);\n        res.ptr[res.len] = '\\0';\n    }\n    return res;\n}\n\nstatic String int_to_str(int64_t val) {\n    char buf[32];\n    int len = snprintf(buf, sizeof(buf), \"%lld\", (long long)val);\n    String res;\n    res.len = len;\n    res.ptr = (char*)malloc(len + 1);\n    if (res.ptr) {\n        memcpy(res.ptr, buf, len);\n        res.ptr[len] = '\\0';\n    }\n    return res;\n}\n\nstatic String string_from_const(const char* s) {\n    String res;\n    res.ptr = (char*)s;\n    res.len = s ? strlen(s) : 0;\n    return res;\n}\n\n"@
}

/// The record that owned strings are stored in.
pub open spec fn string_typedef() -> Seq<char> {
    "typedef struct { char* ptr; int64_t len; } String;"@
}

/// How a run of the emitted code ends: with a value, or by leaving the
/// process with an exit code.
pub enum Outcome {
    Value(Seq<char>),
    Exit(int),
}

/// The tag written into an option record that holds a value.
pub open spec fn some_tag_text() -> Seq<char> {
    "1"@
}

/// The tag that marks an option record holding nothing.
pub open spec fn none_tag_text() -> Seq<char> {
    "0"@
}

/// The tag written into a result record that holds its success value.
pub open spec fn ok_tag_text() -> Seq<char> {
    "0"@
}

/// The tag written into a result record that holds its error value.
pub open spec fn err_tag_text() -> Seq<char> {
    "1"@
}

/// What the emitted unwrap of an option record does with the tag it finds:
/// the tag of an empty option exits with code 1, any other tag yields the
/// stored value.
pub open spec fn run_unwrap_option(tag: Seq<char>, value: Seq<char>) -> Outcome {
    if tag == none_tag_text() {
        Outcome::Exit(1)
    } else {
        Outcome::Value(value)
    }
}

/// What the emitted unwrap of a result record does with the tag it finds:
/// any tag but the success tag exits with code 1, the success tag yields
/// the success value.
pub open spec fn run_unwrap_result(tag: Seq<char>, ok: Seq<char>) -> Outcome {
    if tag != ok_tag_text() {
        Outcome::Exit(1)
    } else {
        Outcome::Value(ok)
    }
}

/// Unwrap round trips, over the tags that the emitted texts write and test
/// (`some_of` and `result_of` write `some_tag_text`, `ok_tag_text` and
/// `err_tag_text`; `unwrap_option_text` tests `none_tag_text` and
/// `unwrap_result_text` tests `ok_tag_text`): unwrapping the record of
/// `some(x)` yields `x`, that of `ok(x)` yields `x`, and that of `err(e)`
/// exits with code 1.
pub proof fn lemma_unwrap_round_trip(x: Seq<char>, e: Seq<char>)
    ensures
        run_unwrap_option(some_tag_text(), x) == Outcome::Value(x),
        run_unwrap_result(ok_tag_text(), x) == Outcome::Value(x),
        run_unwrap_result(err_tag_text(), e) == Outcome::Exit(1),
{
    reveal_strlit("0");
    reveal_strlit("1");
    assert("1"@ != "0"@) by {
        assert("1"@[0] != "0"@[0]);
    }
}

impl Codegen {
    /// Lowering an expression: the counters only move forward, the symbol
    /// tables and the function bodies already written stay as they were.
    pub open spec fn lowered_from(&self, before: Self) -> bool {
        &&& self.wf()
        &&& self.var_count >= before.var_count
        &&& self.label_count == before.label_count
        &&& self.diagnostics.error_count >= before.diagnostics.error_count
        &&& self.diagnostics.reported().len() >= before.diagnostics.reported().len()
        &&& self.diagnostics.budget() == before.diagnostics.budget()
        &&& self.arch == before.arch
        &&& self.vars == before.vars
        &&& self.owned_vars == before.owned_vars
        &&& self.structs == before.structs
        &&& self.impl_methods == before.impl_methods
        &&& self.user_functions == before.user_functions
        &&& self.current_return_type == before.current_return_type
        &&& self.ir.functions == before.ir.functions
        &&& self.source_code == before.source_code
        &&& self.current_file == before.current_file
    }

    /// A failed lowering step either reported a diagnostic or ran out of
    /// temporaries or labels.
    pub open spec fn failed_for_cause(&self, before: Self) -> bool {
        ||| self.diagnostics.reported().len() > before.diagnostics.reported().len()
        ||| self.var_count == usize::MAX
        ||| self.label_count == usize::MAX
    }

    /// Emission steps keep the registry well formed, never move the counters
    /// back, and only extend the body being written.
    pub open spec fn emitted_from(&self, before: Self) -> bool {
        &&& self.wf()
        &&& self.var_count >= before.var_count
        &&& self.label_count >= before.label_count
        &&& self.diagnostics.error_count >= before.diagnostics.error_count
        &&& self.arch == before.arch
    }

    /// Puts the owned-string record and its helpers at the head of the
    /// forward declarations, once.
    pub fn ensure_string_typedef(&mut self)
        requires
            old(self).wf(),
        ensures
            final(self).emitted_from(*old(self)),
            final(self).var_count == old(self).var_count,
            final(self).label_count == old(self).label_count,
            final(self).ir.functions == old(self).ir.functions,
            final(self).ir.headers == old(self).ir.headers,
            occurs_in(encode_utf8(string_typedef()), encode_utf8(final(self).ir.forward_decls@)),
            occurs_in(encode_utf8(string_typedef()), encode_utf8(old(self).ir.forward_decls@)) ==> final(self).ir == old(self).ir,
            !occurs_in(encode_utf8(string_typedef()), encode_utf8(old(self).ir.forward_decls@)) ==> final(self).ir.forward_decls@
                == string_typedef() + "\n\n"@ + old(self).ir.forward_decls@ + string_helpers(),
            final(self).lowered_from(*old(self)),
            final(self).type_registry == old(self).type_registry,
    {
        let typedef_line = "typedef struct { char* ptr; int64_t len; } String;";
        if !contains_text(self.ir.forward_decls.as_str(), typedef_line) {
            let mut decls = String::from_str(typedef_line);
            decls.append("\n\n");
            decls.append(self.ir.forward_decls.as_str());
            decls.append("\nstatic String string_concat(String s1, String s2) {\n    String res;\n    res.len = s1.len + s2.len;\n    res.ptr = (char*)malloc(res.len + 1);\n    if (res.ptr) {\n        memcpy(res.ptr, s1.ptr, s1.len);\n        memcpy(res.ptr + s1.len, s2.ptr, s2.len);\n        res.ptr[res.len] = '\\0';\n    }\n    return res;\n}\n\nstatic String int_to_str(int64_t val) {\n    char buf[32];\n    int len = snprintf(buf, sizeof(buf), \"%lld\", (long long)val);\n    String res;\n    res.len = len;\n    res.ptr = (char*)malloc(len + 1);\n    if (res.ptr) {\n        memcpy(res.ptr, buf, len);\n        res.ptr[len] = '\\0';\n    }\n    return res;\n}\n\nstatic String string_from_const(const char* s) {\n    String res;\n    res.ptr = (char*)s;\n    res.len = s ? strlen(s) : 0;\n    return res;\n}\n\n");
            proof {
                let t = string_typedef();
                let d = decls@;
                reveal_strlit("typedef struct { char* ptr; int64_t len; } String;");
                assert(d =~= t + d.subrange(t.len() as int, d.len() as int));
                crate::text::lemma_encode_concat(t, d.subrange(t.len() as int, d.len() as int));
                let bt = encode_utf8(t);
                let bd = encode_utf8(d);
                assert(bd.subrange(0, bt.len() as int) =~= bt);
                crate::text::lemma_occurs_prefix(bt, bd);
                assert(d =~= t + "\n\n"@ + old(self).ir.forward_decls@ + string_helpers());
            }
            self.ir.forward_decls = decls;
        }
    }

    /// Lowers an integer literal.
    pub fn codegen_number(&mut self, n: i32, body: &mut String) -> (r: (String, Type))
        requires
            old(self).wf(),
            old(self).var_count < usize::MAX,
        ensures
            r.0@ == temp_name(old(self).var_count as nat),
            r.1@ == (Ty::Int { bits: 32, signed: true }),
            final(body)@ == old(body)@ + "int32_t "@ + r.0@ + " = "@ + signed_dec(n as int) + ";\n"@,
            final(self).var_count == old(self).var_count + 1,
            final(self).ir == old(self).ir,
            final(self).type_registry == old(self).type_registry,
            final(self).lowered_from(*old(self)),
    {
        let tmp = self.fresh_var();
        body.append("int32_t ");
        body.append(tmp.as_str());
        body.append(" = ");
        body.append(i64_text(n as i64).as_str());
        body.append(";\n");
        (tmp, Type::i32())
    }

    /// Lowers a floating-point literal, kept as its source text.
    pub fn codegen_float(&mut self, f: &str, body: &mut String) -> (r: (String, Type))
        requires
            old(self).wf(),
            old(self).var_count < usize::MAX,
        ensures
            r.0@ == temp_name(old(self).var_count as nat),
            r.1@ == (Ty::Float { bits: 32 }),
            final(body)@ == old(body)@ + "float "@ + r.0@ + " = "@ + f@ + ";\n"@,
            final(self).var_count == old(self).var_count + 1,
            final(self).ir == old(self).ir,
            final(self).type_registry == old(self).type_registry,
            final(self).lowered_from(*old(self)),
    {
        let tmp = self.fresh_var();
        body.append("float ");
        body.append(tmp.as_str());
        body.append(" = ");
        body.append(f);
        body.append(";\n");
        (tmp, Type::float32())
    }

    /// Lowers a boolean literal.
    pub fn codegen_bool(&mut self, b: bool, body: &mut String) -> (r: (String, Type))
        requires
            old(self).wf(),
            old(self).var_count < usize::MAX,
        ensures
            r.0@ == temp_name(old(self).var_count as nat),
            r.1@ == Ty::Bool,
            final(body)@ == old(body)@ + "bool "@ + r.0@ + " = "@ + (if b {
                "true"@
            } else {
                "false"@
            }) + ";\n"@,
            final(self).var_count == old(self).var_count + 1,
            final(self).ir == old(self).ir,
            final(self).type_registry == old(self).type_registry,
            final(self).lowered_from(*old(self)),
    {
        let tmp = self.fresh_var();
        body.append("bool ");
        body.append(tmp.as_str());
        body.append(" = ");
        body.append(if b {
            "true"
        } else {
            "false"
        });
        body.append(";\n");
        (tmp, Type::Bool)
    }

    /// Lowers a character literal, given by its code.
    pub fn codegen_char(&mut self, c: i32, body: &mut String) -> (r: (String, Type))
        requires
            old(self).wf(),
            old(self).var_count < usize::MAX,
        ensures
            r.0@ == temp_name(old(self).var_count as nat),
            r.1@ == (Ty::Char { bits: 8, signed: true }),
            final(body)@ == old(body)@ + "char "@ + r.0@ + " = "@ + signed_dec(c as int) + ";\n"@,
            final(self).var_count == old(self).var_count + 1,
            final(self).ir == old(self).ir,
            final(self).type_registry == old(self).type_registry,
            final(self).lowered_from(*old(self)),
    {
        let tmp = self.fresh_var();
        body.append("char ");
        body.append(tmp.as_str());
        body.append(" = ");
        body.append(i64_text(c as i64).as_str());
        body.append(";\n");
        (tmp, Type::char8())
    }

    fn codegen_radix(&mut self, n: i32, radix: u64, prefix: &str, body: &mut String) -> (r: (String, Type))
        requires
            old(self).wf(),
            old(self).var_count < usize::MAX,
            2 <= radix <= 16,
        ensures
            r.0@ == temp_name(old(self).var_count as nat),
            r.1@ == (Ty::Int { bits: 32, signed: true }),
            final(body)@ == old(body)@ + "int32_t "@ + r.0@ + " = "@ + prefix@ + digits((n as u32) as nat, radix as nat) + ";\n"@,
            final(self).var_count == old(self).var_count + 1,
            final(self).ir == old(self).ir,
            final(self).type_registry == old(self).type_registry,
            final(self).lowered_from(*old(self)),
    {
        let tmp = self.fresh_var();
        body.append("int32_t ");
        body.append(tmp.as_str());
        body.append(" = ");
        body.append(prefix);
        body.append(radix_text((n as u32) as u64, radix).as_str());
        body.append(";\n");
        (tmp, Type::i32())
    }

    /// Lowers a hexadecimal literal; a negative value is written in two's complement.
    pub fn codegen_hex_number(&mut self, n: i32, body: &mut String) -> (r: (String, Type))
        requires
            old(self).wf(),
            old(self).var_count < usize::MAX,
        ensures
            r.0@ == temp_name(old(self).var_count as nat),
            r.1@ == (Ty::Int { bits: 32, signed: true }),
            final(body)@ == old(body)@ + "int32_t "@ + r.0@ + " = "@ + "0x"@ + digits((n as u32) as nat, 16) + ";\n"@,
            final(self).var_count == old(self).var_count + 1,
            final(self).ir == old(self).ir,
            final(self).lowered_from(*old(self)),
    {
        self.codegen_radix(n, 16, "0x", body)
    }

    /// Lowers a binary literal; a negative value is written in two's complement.
    pub fn codegen_binary_number(&mut self, n: i32, body: &mut String) -> (r: (String, Type))
        requires
            old(self).wf(),
            old(self).var_count < usize::MAX,
        ensures
            r.0@ == temp_name(old(self).var_count as nat),
            r.1@ == (Ty::Int { bits: 32, signed: true }),
            final(body)@ == old(body)@ + "int32_t "@ + r.0@ + " = "@ + "0b"@ + digits((n as u32) as nat, 2) + ";\n"@,
            final(self).var_count == old(self).var_count + 1,
            final(self).ir == old(self).ir,
            final(self).lowered_from(*old(self)),
    {
        self.codegen_radix(n, 2, "0b", body)
    }

    /// Lowers an octal literal; a negative value is written in two's complement.
    pub fn codegen_octal_number(&mut self, n: i32, body: &mut String) -> (r: (String, Type))
        requires
            old(self).wf(),
            old(self).var_count < usize::MAX,
        ensures
            r.0@ == temp_name(old(self).var_count as nat),
            r.1@ == (Ty::Int { bits: 32, signed: true }),
            final(body)@ == old(body)@ + "int32_t "@ + r.0@ + " = "@ + "0"@ + digits((n as u32) as nat, 8) + ";\n"@,
            final(self).var_count == old(self).var_count + 1,
            final(self).ir == old(self).ir,
            final(self).lowered_from(*old(self)),
    {
        self.codegen_radix(n, 8, "0", body)
    }

    /// Lowers a string literal to an owned string record.
    pub fn codegen_string(&mut self, s: &str, body: &mut String) -> (r: (String, Type))
        requires
            old(self).wf(),
            old(self).var_count < usize::MAX,
        ensures
            final(self).emitted_from(*old(self)),
            final(self).lowered_from(*old(self)),
            r.0@ == temp_name(old(self).var_count as nat),
            r.1@ == (Ty::Str { len_type: Box::new(Ty::Int { bits: 64, signed: true }) }),
            final(body)@ == old(body)@ + "String "@ + r.0@ + " = { .ptr = \""@ + escaped(s@)
                + "\", .len = "@ + dec(s.len() as nat) + " };\n"@,
            final(self).var_count == old(self).var_count + 1,
            final(self).ir.functions == old(self).ir.functions,
            occurs_in(encode_utf8(string_typedef()), encode_utf8(final(self).ir.forward_decls@)),
    {
        self.ensure_string_typedef();
        let tmp = self.fresh_var();
        body.append("String ");
        body.append(tmp.as_str());
        body.append(" = { .ptr = \"");
        body.append(escape(s).as_str());
        body.append("\", .len = ");
        body.append(usize_text(s.len()).as_str());
        body.append(" };\n");
        (tmp, Type::Str { len_type: Box::new(Type::i64()) })
    }

    pub fn codegen_break(&self, body: &mut String) -> (r: Result<(), ()>)
        ensures
            r is Ok,
            final(body)@ == old(body)@ + "break;\n"@,
    {
        body.append("break;\n");
        Ok(())
    }

    pub fn codegen_continue(&self, body: &mut String) -> (r: Result<(), ()>)
        ensures
            r is Ok,
            final(body)@ == old(body)@ + "continue;\n"@,
    {
        body.append("continue;\n");
        Ok(())
    }
}

/// The definition of `t`, when it is a compound type, has been handed out.
pub open spec fn registered(ids: Seq<Seq<char>>, t: Ty) -> bool {
    type_id(t) is Some ==> ids.contains(type_id(t)->0)
}

/// Every direct component of `t` that is itself compound has its definition.
pub open spec fn components_registered(ids: Seq<Seq<char>>, t: Ty) -> bool {
    match t {
        Ty::Option { inner } => registered(ids, *inner),
        Ty::Result { ok, err } => registered(ids, *ok) && registered(ids, *err),
        Ty::Array { element, .. } => registered(ids, *element),
        Ty::Tuple { fields } => forall|i: int| 0 <= i < fields.len() ==> #[trigger] registered(ids, fields[i]),
        Ty::Union { variants } => forall|i: int| 0 <= i < variants.len() ==> #[trigger] registered(ids, variants[i]),
        Ty::Ptr(i) => registered(ids, *i),
        Ty::RawPtr(i) => registered(ids, *i),
        Ty::Owned(i) => registered(ids, *i),
        Ty::Ref(i) => registered(ids, *i),
        Ty::MutRef(i) => registered(ids, *i),
        Ty::Const(i) => registered(ids, *i),
        _ => true,
    }
}

proof fn lemma_registered_grows(a: Seq<Seq<char>>, b: Seq<Seq<char>>, t: Ty)
    requires
        a.is_prefix_of(b),
        registered(a, t),
    ensures
        registered(b, t),
{
    if type_id(t) is Some {
        let k = choose|k: int| 0 <= k < a.len() && a[k] == type_id(t)->0;
        assert(b[k] == a[k]);
    }
}

proof fn lemma_components_grow(a: Seq<Seq<char>>, b: Seq<Seq<char>>, t: Ty)
    requires
        a.is_prefix_of(b),
        components_registered(a, t),
    ensures
        components_registered(b, t),
{
    match t {
        Ty::Option { inner } => lemma_registered_grows(a, b, *inner),
        Ty::Result { ok, err } => {
            lemma_registered_grows(a, b, *ok);
            lemma_registered_grows(a, b, *err);
        },
        Ty::Array { element, .. } => lemma_registered_grows(a, b, *element),
        Ty::Tuple { fields } => {
            assert forall|i: int| 0 <= i < fields.len() implies #[trigger] registered(b, fields[i]) by {
                lemma_registered_grows(a, b, fields[i]);
            }
        },
        Ty::Union { variants } => {
            assert forall|i: int| 0 <= i < variants.len() implies #[trigger] registered(b, variants[i]) by {
                lemma_registered_grows(a, b, variants[i]);
            }
        },
        Ty::Ptr(i) => lemma_registered_grows(a, b, *i),
        Ty::RawPtr(i) => lemma_registered_grows(a, b, *i),
        Ty::Owned(i) => lemma_registered_grows(a, b, *i),
        Ty::Ref(i) => lemma_registered_grows(a, b, *i),
        Ty::MutRef(i) => lemma_registered_grows(a, b, *i),
        Ty::Const(i) => lemma_registered_grows(a, b, *i),
        _ => {},
    }
}

impl Codegen {
    /// Steps that only add type definitions: the registry's identifiers and
    /// the forward declarations only grow, and nothing else changes.
    pub open spec fn defined_from(&self, before: Self) -> bool {
        &&& self.wf()
        &&& before.type_registry.ids().is_prefix_of(self.type_registry.ids())
        &&& before.ir.forward_decls@.is_prefix_of(self.ir.forward_decls@)
        &&& self.ir.functions == before.ir.functions
        &&& self.ir.headers == before.ir.headers
        &&& self.var_count == before.var_count
        &&& self.label_count == before.label_count
        &&& self.diagnostics == before.diagnostics
        &&& self.arch == before.arch
        &&& self.vars == before.vars
        &&& self.owned_vars == before.owned_vars
        &&& self.structs == before.structs
        &&& self.impl_methods == before.impl_methods
        &&& self.user_functions == before.user_functions
        &&& self.current_return_type == before.current_return_type
        &&& self.source_code == before.source_code
        &&& self.current_file == before.current_file
    }

    fn ensure_all_defined(&mut self, v: &Vec<Type>)
        requires
            old(self).wf(),
        ensures
            final(self).defined_from(*old(self)),
            forall|i: int| 0 <= i < v@.len() ==> #[trigger] registered(final(self).type_registry.ids(), v@[i]@),
        decreases v,
    {
        let mut i: usize = 0;
        while i < v.len()
            invariant
                i <= v.len(),
                self.defined_from(*old(self)),
                forall|j: int| 0 <= j < i ==> #[trigger] registered(self.type_registry.ids(), v@[j]@),
            decreases v.len() - i,
        {
            let ghost before = self.type_registry.ids();
            self.ensure_type_defined(&v[i]);
            proof {
                assert forall|j: int| 0 <= j < i + 1 implies #[trigger] registered(self.type_registry.ids(), v@[j]@) by {
                    if j < i {
                        lemma_registered_grows(before, self.type_registry.ids(), v@[j]@);
                    }
                }
            }
            i = i + 1;
        }
    }

    /// Defines `ty` and, first, everything it is built from; each definition
    /// is appended to the forward declarations at most once.
    pub fn ensure_type_defined(&mut self, ty: &Type)
        requires
            old(self).wf(),
        ensures
            final(self).defined_from(*old(self)),
            type_id(ty@) is Some ==> final(self).type_registry.ids().contains(type_id(ty@)->0),
            components_registered(final(self).type_registry.ids(), ty@),
            exists|pre: Seq<Seq<char>>|
                pre.is_prefix_of(final(self).type_registry.ids()) && components_registered(pre, ty@) && (type_id(ty@) is Some
                    && !pre.contains(type_id(ty@)->0) ==> final(self).type_registry.ids() == pre.push(type_id(ty@)->0)),
        decreases ty,
    {
        match ty {
            Type::Result { ok, err } => {
                self.ensure_type_defined(ok);
                let ghost m1 = self.type_registry.ids();
                self.ensure_type_defined(err);
                proof {
                    lemma_registered_grows(m1, self.type_registry.ids(), ok@);
                }
            },
            Type::Option { inner } => self.ensure_type_defined(inner),
            Type::Tuple { fields } => self.ensure_all_defined(fields),
            Type::Union { variants } => self.ensure_all_defined(variants),
            Type::Array { element, .. } => self.ensure_type_defined(element),
            Type::Ptr(inner) | Type::RawPtr(inner) | Type::Owned(inner) | Type::Ref(inner)
            | Type::MutRef(inner) | Type::Const(inner) => self.ensure_type_defined(inner),
            _ => {},
        }
        let ghost mid = *self;
        proof {
            match ty {
                Type::Tuple { fields } => {
                    crate::types::lemma_type_views(fields@);
                },
                Type::Union { variants } => {
                    crate::types::lemma_type_views(variants@);
                },
                _ => {},
            }
            assert(components_registered(mid.type_registry.ids(), ty@));
        }
        let def = self.type_registry.generate_type_definition(ty, &self.arch);
        proof {
            if type_id(ty@) is Some {
                let id = type_id(ty@)->0;
                if !mid.type_registry.ids().contains(id) {
                    assert(self.type_registry.ids().last() == id);
                    assert(self.type_registry.ids()[self.type_registry.ids().len() - 1] == id);
                } else {
                    assert(self.type_registry.ids() == mid.type_registry.ids());
                }
            }
            assert(mid.type_registry.ids().is_prefix_of(self.type_registry.ids())) by {
                assert forall|k: int| 0 <= k < mid.type_registry.ids().len() implies mid.type_registry.ids()[k] == self.type_registry.ids()[k] by {}
            }
        }
        if let Some(d) = def {
            if !contains_text(self.ir.forward_decls.as_str(), d.as_str()) {
                self.ir.forward_decls.append(d.as_str());
                self.ir.forward_decls.append("\n");
            }
        }
        proof {
            assert(old(self).type_registry.ids().is_prefix_of(self.type_registry.ids()));
            assert(old(self).ir.forward_decls@.is_prefix_of(self.ir.forward_decls@));
            lemma_components_grow(mid.type_registry.ids(), self.type_registry.ids(), ty@);
            let pre = mid.type_registry.ids();
            assert(pre.is_prefix_of(self.type_registry.ids()) && components_registered(pre, ty@) && (type_id(ty@) is Some
                && !pre.contains(type_id(ty@)->0) ==> self.type_registry.ids() == pre.push(type_id(ty@)->0)));
        }
    }
}

} // verus!
