use vstd::prelude::*;
use crate::text::{dec, usize_text};

verus! {

/// A place in a source file: line and column count from 1, `length` is the
/// number of characters to underline.
#[derive(Debug)]
pub struct SourceLocation {
    pub file: String,
    pub line: usize,
    pub column: usize,
    pub length: usize,
}

impl SourceLocation {
    /// A copy of this location.
    pub fn duplicate(&self) -> (r: SourceLocation)
        ensures
            r == *self,
    {
        SourceLocation {
            file: self.file.clone(),
            line: self.line,
            column: self.column,
            length: self.length,
        }
    }
}

/// Where a diagnostic points, what else it points at, and what it advises.
#[derive(Debug)]
pub struct ErrorContext {
    pub primary_location: SourceLocation,
    pub secondary_locations: Vec<(SourceLocation, String)>,
    pub help_message: Option<String>,
    pub suggestions: Vec<String>,
}

#[derive(Debug, Clone, Copy, PartialEq, Eq)]
pub enum DiagnosticLevel {
    Error,
    Warning,
}

/// One message of the checker or the emitter.
#[derive(Debug)]
pub struct Diagnostic {
    pub level: DiagnosticLevel,
    pub code: String,
    pub message: String,
    pub context: ErrorContext,
}

impl Diagnostic {
    pub fn error(code: &str, message: &str, context: ErrorContext) -> (r: Self)
        ensures
            r.level == DiagnosticLevel::Error,
            r.code@ == code@,
            r.message@ == message@,
            r.context == context,
    {
        Diagnostic {
            level: DiagnosticLevel::Error,
            code: String::from_str(code),
            message: String::from_str(message),
            context,
        }
    }

    pub fn warning(code: &str, message: &str, context: ErrorContext) -> (r: Self)
        ensures
            r.level == DiagnosticLevel::Warning,
            r.code@ == code@,
            r.message@ == message@,
            r.context == context,
    {
        Diagnostic {
            level: DiagnosticLevel::Warning,
            code: String::from_str(code),
            message: String::from_str(message),
            context,
        }
    }
}

/// Collects the diagnostics of one compilation unit and keeps the error budget.
pub struct DiagnosticHandler {
    pub diagnostics: Vec<Diagnostic>,
    pub source_code: String,
    pub max_errors: usize,
    pub error_count: usize,
    pub warning_count: usize,
}

/// The default error budget.
pub const MAX_ERRORS: usize = 100;

impl DiagnosticHandler {
    /// Everything reported so far, in order.
    pub closed spec fn reported(&self) -> Seq<Diagnostic> {
        self.diagnostics@
    }

    /// Whether a diagnostic with code `c` was reported.
    pub open spec fn has_code(&self, c: Seq<char>) -> bool {
        exists|k: int| 0 <= k < self.reported().len() && #[trigger] self.reported()[k].code@ == c
    }

    /// The error budget.
    pub closed spec fn budget(&self) -> usize {
        self.max_errors
    }

    /// The source text that diagnostics quote.
    pub closed spec fn source(&self) -> Seq<char> {
        self.source_code@
    }

    pub fn new(source_code: String) -> (r: Self)
        ensures
            r.reported() == Seq::<Diagnostic>::empty(),
            r.budget() == MAX_ERRORS,
            r.source() == source_code@,
            r.error_count == 0,
            r.warning_count == 0,
    {
        DiagnosticHandler {
            diagnostics: Vec::new(),
            source_code,
            max_errors: MAX_ERRORS,
            error_count: 0,
            warning_count: 0,
        }
    }

    /// Records an error. The count stops at the largest `usize`.
    pub fn error(&mut self, code: &str, message: &str, context: ErrorContext)
        ensures
            final(self).reported().len() == old(self).reported().len() + 1,
            final(self).reported().drop_last() == old(self).reported(),
            final(self).reported().last().level == DiagnosticLevel::Error,
            final(self).has_code(code@),
            forall|c: Seq<char>| old(self).has_code(c) ==> #[trigger] final(self).has_code(c),
            final(self).reported().last().code@ == code@,
            final(self).reported().last().message@ == message@,
            final(self).reported().last().context == context,
            final(self).error_count == if old(self).error_count < usize::MAX {
                old(self).error_count + 1
            } else {
                old(self).error_count as int
            },
            final(self).warning_count == old(self).warning_count,
            final(self).budget() == old(self).budget(),
            final(self).source() == old(self).source(),
    {
        let d = Diagnostic::error(code, message, context);
        self.diagnostics.push(d);
        if self.error_count < usize::MAX {
            self.error_count = self.error_count + 1;
        }
        proof {
            assert(self.diagnostics@.drop_last() =~= old(self).diagnostics@);
            let n = self.reported().len() - 1;
            assert(self.reported()[n].code@ == code@);
            assert forall|c: Seq<char>| old(self).has_code(c) implies #[trigger] self.has_code(c) by {
                let k = choose|k: int| 0 <= k < old(self).reported().len() && #[trigger] old(self).reported()[k].code@ == c;
                assert(self.reported()[k] == old(self).reported()[k]);
            }
        }
    }

    /// Records a warning. The count stops at the largest `usize`.
    pub fn warning(&mut self, code: &str, message: &str, context: ErrorContext)
        ensures
            final(self).reported().len() == old(self).reported().len() + 1,
            final(self).reported().drop_last() == old(self).reported(),
            final(self).reported().last().level == DiagnosticLevel::Warning,
            final(self).has_code(code@),
            forall|c: Seq<char>| old(self).has_code(c) ==> #[trigger] final(self).has_code(c),
            final(self).reported().last().code@ == code@,
            final(self).reported().last().message@ == message@,
            final(self).reported().last().context == context,
            final(self).warning_count == if old(self).warning_count < usize::MAX {
                old(self).warning_count + 1
            } else {
                old(self).warning_count as int
            },
            final(self).error_count == old(self).error_count,
            final(self).budget() == old(self).budget(),
            final(self).source() == old(self).source(),
    {
        let d = Diagnostic::warning(code, message, context);
        self.diagnostics.push(d);
        if self.warning_count < usize::MAX {
            self.warning_count = self.warning_count + 1;
        }
        proof {
            assert(self.diagnostics@.drop_last() =~= old(self).diagnostics@);
            let n = self.reported().len() - 1;
            assert(self.reported()[n].code@ == code@);
            assert forall|c: Seq<char>| old(self).has_code(c) implies #[trigger] self.has_code(c) by {
                let k = choose|k: int| 0 <= k < old(self).reported().len() && #[trigger] old(self).reported()[k].code@ == c;
                assert(self.reported()[k] == old(self).reported()[k]);
            }
        }
    }

    pub fn has_errors(&self) -> (r: bool)
        ensures
            r == (self.error_count > 0),
    {
        self.error_count > 0
    }

    /// Whether the error budget still allows more checking.
    pub fn should_continue(&self) -> (r: bool)
        ensures
            r == (self.error_count < self.budget()),
    {
        self.error_count < self.max_errors
    }

    /// The diagnostics reported so far.
    pub fn diagnostics(&self) -> (r: &Vec<Diagnostic>)
        ensures
            r@ == self.reported(),
    {
        &self.diagnostics
    }

    /// The source text that diagnostics quote.
    pub fn source_code(&self) -> (r: &String)
        ensures
            r@ == self.source(),
    {
        &self.source_code
    }

    /// The closing line, when anything was reported.
    pub fn summary(&self) -> (r: Option<String>)
        ensures
            (self.error_count > 0 || self.warning_count > 0) <==> r is Some,
            r is Some ==> r->0@ == "Compilation finished with "@ + dec(self.error_count as nat)
                + " error(s) and "@ + dec(self.warning_count as nat) + " warning(s)."@,
    {
        if self.error_count > 0 || self.warning_count > 0 {
            let mut s = String::from_str("Compilation finished with ");
            s.append(usize_text(self.error_count).as_str());
            s.append(" error(s) and ");
            s.append(usize_text(self.warning_count).as_str());
            s.append(" warning(s).");
            Some(s)
        } else {
            None
        }
    }
}

pub(crate) fn text(s: &str) -> (r: String)
    ensures
        r@ == s@,
{
    String::from_str(s)
}

pub(crate) fn join2(a: &str, b: &str) -> (r: String)
    ensures
        r@ == a@ + b@,
{
    let mut s = String::from_str(a);
    s.append(b);
    s
}

pub(crate) fn join3(a: &str, b: &str, c: &str) -> (r: String)
    ensures
        r@ == a@ + b@ + c@,
{
    let mut s = String::from_str(a);
    s.append(b);
    s.append(c);
    s
}

pub(crate) fn join4(a: &str, b: &str, c: &str, d: &str) -> (r: String)
    ensures
        r@ == a@ + b@ + c@ + d@,
{
    let mut s = String::from_str(a);
    s.append(b);
    s.append(c);
    s.append(d);
    s
}

pub(crate) fn join5(a: &str, b: &str, c: &str, d: &str, e: &str) -> (r: String)
    ensures
        r@ == a@ + b@ + c@ + d@ + e@,
{
    let mut s = String::from_str(a);
    s.append(b);
    s.append(c);
    s.append(d);
    s.append(e);
    s
}

/// Context of a value whose type differs from the one expected.
pub fn type_mismatch_error(
    expected_ty: &str,
    got_ty: &str,
    location: SourceLocation,
    source_location: SourceLocation,
) -> (r: ErrorContext)
    ensures
        r.primary_location == location,
        r.secondary_locations@.len() == 1,
        r.secondary_locations@[0].0 == source_location,
        r.secondary_locations@[0].1@ == "sending "@ + got_ty@ + " to "@ + expected_ty@,
        r.help_message is Some,
        r.help_message->0@ == "Expected type '"@ + expected_ty@ + "', but got '"@ + got_ty@
            + "'.\n    Consider using Option<"@ + expected_ty@ + "> or converting the type explicitly."@,
        r.suggestions@.len() == 2,
        r.suggestions@[0]@ == "Change parameter type to Option<"@ + expected_ty@ + ">"@,
        r.suggestions@[1]@ == "Convert "@ + got_ty@ + " to "@ + expected_ty@ + " explicitly"@,
{
    let mut help = join5("Expected type '", expected_ty, "', but got '", got_ty, "'.\n    Consider using Option<");
    help.append(expected_ty);
    help.append("> or converting the type explicitly.");
    let s1 = join5("Convert ", got_ty, " to ", expected_ty, " explicitly");
    ErrorContext {
        primary_location: location,
        secondary_locations: vec![(source_location, join4("sending ", got_ty, " to ", expected_ty))],
        help_message: Some(help),
        suggestions: vec![join3("Change parameter type to Option<", expected_ty, ">"), s1],
    }
}

/// Context of a returned value whose type differs from the declared one.
pub fn return_type_mismatch_error(
    expected_ty: &str,
    got_ty: &str,
    location: SourceLocation,
    function_location: SourceLocation,
) -> (r: ErrorContext)
    ensures
        r.primary_location == location,
        r.secondary_locations@.len() == 1,
        r.secondary_locations@[0].0 == function_location,
        r.secondary_locations@[0].1@ == "function expects to return "@ + expected_ty@,
        r.help_message is Some,
        r.help_message->0@ == "Returning "@ + got_ty@ + " to "@ + expected_ty@
            + ".\n    The function signature specifies return type '"@ + expected_ty@
            + "', but found '"@ + got_ty@ + "'."@,
        r.suggestions@.len() == 3,
        r.suggestions@[0]@ == "Change return type to Option<"@ + expected_ty@ + ">"@,
        r.suggestions@[1]@ == "Wrap return value in Some(...) if using Option"@,
        r.suggestions@[2]@ == "Convert "@ + got_ty@ + " to "@ + expected_ty@ + " before returning"@,
{
    let mut help = join5(
        "Returning ",
        got_ty,
        " to ",
        expected_ty,
        ".\n    The function signature specifies return type '",
    );
    help.append(expected_ty);
    help.append("', but found '");
    help.append(got_ty);
    help.append("'.");
    ErrorContext {
        primary_location: location,
        secondary_locations: vec![(function_location, join2("function expects to return ", expected_ty))],
        help_message: Some(help),
        suggestions: vec![
            join3("Change return type to Option<", expected_ty, ">"),
            text("Wrap return value in Some(...) if using Option"),
            join5("Convert ", got_ty, " to ", expected_ty, " before returning"),
        ],
    }
}

/// Context of an operation applied to a void value.
pub fn void_operation_error(operation: &str, location: SourceLocation) -> (r: ErrorContext)
    ensures
        r.primary_location == location,
        r.secondary_locations@.len() == 0,
        r.help_message is Some,
        r.help_message->0@ == "Cannot perform operation '"@ + operation@
            + "' on void type.\n    Void type represents the absence of a value."@,
        r.suggestions@.len() == 2,
        r.suggestions@[0]@ == "Remove this operation"@,
        r.suggestions@[1]@ == "Check if the expression should return a value"@,
{
    ErrorContext {
        primary_location: location,
        secondary_locations: Vec::new(),
        help_message: Some(
            join3(
                "Cannot perform operation '",
                operation,
                "' on void type.\n    Void type represents the absence of a value.",
            ),
        ),
        suggestions: vec![
            text("Remove this operation"),
            text("Check if the expression should return a value"),
        ],
    }
}

/// Context of a variable, parameter or field declared with the void type.
pub fn void_variable_error(var_name: &str, location: SourceLocation) -> (r: ErrorContext)
    ensures
        r.primary_location == location,
        r.secondary_locations@.len() == 0,
        r.help_message is Some,
        r.help_message->0@ == "Variable '"@ + var_name@
            + "' cannot have void type.\n    Variables must have concrete types that can hold values."@,
        r.suggestions@.len() == 2,
        r.suggestions@[0]@ == "Change '"@ + var_name@ + "' to a concrete type"@,
        r.suggestions@[1]@ == "Remove this variable declaration"@,
{
    ErrorContext {
        primary_location: location,
        secondary_locations: Vec::new(),
        help_message: Some(
            join3(
                "Variable '",
                var_name,
                "' cannot have void type.\n    Variables must have concrete types that can hold values.",
            ),
        ),
        suggestions: vec![
            join3("Change '", var_name, "' to a concrete type"),
            text("Remove this variable declaration"),
        ],
    }
}

/// Context of an array whose elements are void.
pub fn void_array_error(location: SourceLocation) -> (r: ErrorContext)
    ensures
        r.primary_location == location,
        r.secondary_locations@.len() == 0,
        r.help_message is Some,
        r.help_message->0@
            == "Arrays cannot contain void elements.\n    Array elements must be concrete types."@,
        r.suggestions@.len() == 2,
        r.suggestions@[0]@ == "Change array element type to a concrete type"@,
        r.suggestions@[1]@ == "Use a different data structure"@,
{
    ErrorContext {
        primary_location: location,
        secondary_locations: Vec::new(),
        help_message: Some(
            text("Arrays cannot contain void elements.\n    Array elements must be concrete types."),
        ),
        suggestions: vec![
            text("Change array element type to a concrete type"),
            text("Use a different data structure"),
        ],
    }
}

/// Context of a dereference of a void pointer.
pub fn dereference_void_error(location: SourceLocation) -> (r: ErrorContext)
    ensures
        r.primary_location == location,
        r.secondary_locations@.len() == 0,
        r.help_message is Some,
        r.help_message->0@
            == "Cannot dereference void pointer without explicit cast.\n    Cast to a concrete type before dereferencing."@,
        r.suggestions@.len() == 2,
        r.suggestions@[0]@ == "Cast to appropriate pointer type: (int32_t*)ptr"@,
        r.suggestions@[1]@ == "Use a typed pointer instead of void*"@,
{
    ErrorContext {
        primary_location: location,
        secondary_locations: Vec::new(),
        help_message: Some(
            text(
                "Cannot dereference void pointer without explicit cast.\n    Cast to a concrete type before dereferencing.",
            ),
        ),
        suggestions: vec![
            text("Cast to appropriate pointer type: (int32_t*)ptr"),
            text("Use a typed pointer instead of void*"),
        ],
    }
}

/// Context of a borrow that overlaps an earlier one; the earlier site is
/// shown as the secondary location.
pub fn borrow_conflict_error(var: &str, loc: SourceLocation, conflict: SourceLocation) -> (r:
    ErrorContext)
    ensures
        r.primary_location == loc,
        r.secondary_locations@.len() == 1,
        r.secondary_locations@[0].0 == conflict,
        r.secondary_locations@[0].1@ == "first borrow of '"@ + var@ + "' occurs here"@,
        r.help_message is Some,
        r.help_message->0@ == "Cannot borrow '"@ + var@
            + "' because it is already borrowed.\n    Rust's borrow checker ensures memory safety by preventing multiple mutable borrows or simultaneous mutable and immutable borrows of the same data."@,
        r.suggestions@.len() == 3,
        r.suggestions@[0]@ == "Drop the first borrow before creating a new one"@,
        r.suggestions@[1]@ == "Use different variables for separate borrows"@,
        r.suggestions@[2]@ == "Consider restructuring to avoid overlapping borrows"@,
{
    ErrorContext {
        primary_location: loc,
        secondary_locations: vec![(conflict, join3("first borrow of '", var, "' occurs here"))],
        help_message: Some(
            join3(
                "Cannot borrow '",
                var,
                "' because it is already borrowed.\n    Rust's borrow checker ensures memory safety by preventing multiple mutable borrows or simultaneous mutable and immutable borrows of the same data.",
            ),
        ),
        suggestions: vec![
            text("Drop the first borrow before creating a new one"),
            text("Use different variables for separate borrows"),
            text("Consider restructuring to avoid overlapping borrows"),
        ],
    }
}

/// Context of a name that no scope defines.
pub fn undefined_variable_error(name: &str, loc: SourceLocation) -> (r: ErrorContext)
    ensures
        r.primary_location == loc,
        r.secondary_locations@.len() == 0,
        r.help_message is Some,
        r.help_message->0@ == "Variable '"@ + name@
            + "' is not defined in the current scope.\n    Variables must be declared before use."@,
        r.suggestions@.len() == 3,
        r.suggestions@[0]@ == "Declare variable '"@ + name@ + "' before using it"@,
        r.suggestions@[1]@ == "Check variable name spelling"@,
        r.suggestions@[2]@ == "Ensure the variable is in scope"@,
{
    ErrorContext {
        primary_location: loc,
        secondary_locations: Vec::new(),
        help_message: Some(
            join3(
                "Variable '",
                name,
                "' is not defined in the current scope.\n    Variables must be declared before use.",
            ),
        ),
        suggestions: vec![
            join3("Declare variable '", name, "' before using it"),
            text("Check variable name spelling"),
            text("Ensure the variable is in scope"),
        ],
    }
}

/// Context of a call to a function that is not known.
pub fn undefined_function_error(name: &str, arg_count: usize, loc: SourceLocation) -> (r:
    ErrorContext)
    ensures
        r.primary_location == loc,
        r.secondary_locations@.len() == 0,
        r.help_message is Some,
        r.help_message->0@ == "Function '"@ + name@ + "' with "@ + dec(arg_count as nat)
            + " argument(s) is not defined.\n    Functions must be declared before they are called, or imported from external modules."@,
        r.suggestions@.len() == 4,
        r.suggestions@[0]@ == "Define function '"@ + name@ + "' before calling it"@,
        r.suggestions@[1]@ == "Import '"@ + name@ + "' from a module or external library"@,
        r.suggestions@[2]@ == "Check function name spelling"@,
        r.suggestions@[3]@ == "Verify the function signature matches the call"@,
{
    let count = usize_text(arg_count);
    let help = join5(
        "Function '",
        name,
        "' with ",
        count.as_str(),
        " argument(s) is not defined.\n    Functions must be declared before they are called, or imported from external modules.",
    );
    ErrorContext {
        primary_location: loc,
        secondary_locations: Vec::new(),
        help_message: Some(help),
        suggestions: vec![
            join3("Define function '", name, "' before calling it"),
            join3("Import '", name, "' from a module or external library"),
            text("Check function name spelling"),
            text("Verify the function signature matches the call"),
        ],
    }
}

/// The location used where no better one is known.
pub fn default_location() -> (r: SourceLocation)
    ensures
        r.file@ == "<unknown>"@,
        r.line == 0,
        r.column == 0,
        r.length == 1,
{
    SourceLocation { file: text("<unknown>"), line: 0, column: 0, length: 1 }
}

/// `line` without one trailing carriage return.
pub open spec fn strip_cr(line: Seq<char>) -> Seq<char> {
    if line.len() > 0 && line.last() == '\r' {
        line.drop_last()
    } else {
        line
    }
}

/// The complete lines of `s` (each without its line break) and the text after
/// the last line break.
pub open spec fn split_lines(s: Seq<char>) -> (Seq<Seq<char>>, Seq<char>)
    decreases s.len(),
{
    if s.len() == 0 {
        (Seq::empty(), Seq::empty())
    } else {
        let (done, cur) = split_lines(s.drop_last());
        if s.last() == '\n' {
            (done.push(strip_cr(cur)), Seq::empty())
        } else {
            (done, cur.push(s.last()))
        }
    }
}

/// The lines of a text, as `str::lines` gives them: split at line breaks,
/// without a trailing carriage return, and with no empty last line after a
/// final line break.
pub open spec fn text_lines(s: Seq<char>) -> Seq<Seq<char>> {
    let (done, cur) = split_lines(s);
    if cur.len() == 0 {
        done
    } else {
        done.push(strip_cr(cur))
    }
}

/// The lines of `s`.
pub fn lines_of(s: &str) -> (r: Vec<String>)
    ensures
        r@.map_values(|l: String| l@) == text_lines(s@),
{
    let n = s.unicode_len();
    let mut done: Vec<String> = Vec::new();
    let mut cur = String::new();
    let mut i: usize = 0;
    while i < n
        invariant
            n == s@.len(),
            i <= n,
            (done@.map_values(|l: String| l@), cur@) == split_lines(s@.subrange(0, i as int)),
        decreases n - i,
    {
        proof {
            assert(s@.subrange(0, i + 1).drop_last() =~= s@.subrange(0, i as int));
        }
        let c = s.get_char(i);
        let ghost before = done@;
        if c == '\n' {
            let line = strip_last_cr(&cur);
            done.push(line);
            cur = String::new();
            proof {
                assert(done@.map_values(|l: String| l@) =~= before.map_values(|l: String| l@).push(strip_cr(split_lines(s@.subrange(0, i as int)).1)));
            }
        } else {
            crate::text::push_char(&mut cur, c);
        }
        i = i + 1;
    }
    proof {
        assert(s@.subrange(0, n as int) =~= s@);
    }
    if cur.as_str().unicode_len() > 0 {
        let ghost before = done@;
        let line = strip_last_cr(&cur);
        done.push(line);
        proof {
            assert(done@.map_values(|l: String| l@) =~= before.map_values(|l: String| l@).push(strip_cr(cur@)));
        }
    }
    done
}

fn strip_last_cr(line: &String) -> (r: String)
    ensures
        r@ == strip_cr(line@),
{
    let n = line.as_str().unicode_len();
    if n > 0 && line.as_str().get_char(n - 1) == '\r' {
        String::from_str(line.as_str().substring_char(0, n - 1))
    } else {
        line.clone()
    }
}

fn spaces(n: usize) -> (r: String)
    ensures
        r@ == Seq::new(n as nat, |i: int| ' '),
{
    repeat_char(' ', n)
}

fn repeat_char(c: char, n: usize) -> (r: String)
    ensures
        r@ == Seq::new(n as nat, |i: int| c),
{
    let mut s = String::new();
    let mut i: usize = 0;
    while i < n
        invariant
            i <= n,
            s@ == Seq::new(i as nat, |k: int| c),
        decreases n - i,
    {
        crate::text::push_char(&mut s, c);
        i = i + 1;
        proof {
            assert(s@ =~= Seq::new(i as nat, |k: int| c));
        }
    }
    s
}

/// A line number right-aligned in two columns, as `{:2}` writes it.
fn line_number(n: usize) -> (r: String)
    ensures
        n < 10 ==> r@ == seq![' '] + dec(n as nat),
        n >= 10 ==> r@ == dec(n as nat),
{
    let d = usize_text(n);
    if n < 10 {
        let mut s = String::new();
        crate::text::push_char(&mut s, ' ');
        s.append(d.as_str());
        proof {
            assert(s@ =~= seq![' '] + dec(n as nat));
        }
        s
    } else {
        d
    }
}

/// A line number right-aligned in two columns.
pub open spec fn line_label(n: nat) -> Seq<char> {
    if n < 10 {
        seq![' '] + dec(n)
    } else {
        dec(n)
    }
}

/// The primary source line, marked `|>`, then `column - 1` spaces, `length - 1`
/// carets and one more caret, and the message; nothing when the line is not
/// in the source.
pub open spec fn primary_part(d: Diagnostic, lines: Seq<Seq<char>>) -> Seq<char> {
    let p = d.context.primary_location;
    if p.line > 0 && p.line <= lines.len() {
        line_label(p.line as nat) + " |> "@ + lines[p.line - 1] + "\n   | "@ + Seq::new(
            (if p.column >= 1 { p.column - 1 } else { 0 }) as nat,
            |i: int| ' ',
        ) + Seq::new((if p.length >= 1 { p.length - 1 } else { 0 }) as nat, |i: int| '^') + "^ "@ + d.message@ + "\n"@
    } else {
        Seq::empty()
    }
}

/// Each line indented by four spaces.
pub open spec fn indented_lines(ls: Seq<Seq<char>>) -> Seq<char>
    decreases ls.len(),
{
    if ls.len() == 0 {
        Seq::empty()
    } else {
        indented_lines(ls.drop_last()) + "    "@ + ls.last() + "\n"@
    }
}

/// The help block: a rule of 72 dashes and the help paragraph, line by line.
pub open spec fn help_part(d: Diagnostic) -> Seq<char> {
    match d.context.help_message {
        Some(h) => "   |\n   "@ + Seq::new(72, |i: int| '-') + "\n   |-> help:\n"@ + indented_lines(text_lines(h@)),
        None => Seq::empty(),
    }
}

/// One suggestion line for each suggestion.
pub open spec fn suggestion_lines(ss: Seq<String>) -> Seq<char>
    decreases ss.len(),
{
    if ss.len() == 0 {
        Seq::empty()
    } else {
        suggestion_lines(ss.drop_last()) + suggestion_line(ss.last()@)
    }
}

/// The suggestions block, when there are suggestions.
pub open spec fn suggestions_part(ss: Seq<String>) -> Seq<char> {
    if ss.len() == 0 {
        Seq::empty()
    } else {
        "   |\n   |-> suggestions:\n"@ + suggestion_lines(ss)
    }
}

/// The first lines of a rendered diagnostic: the level with the code, then
/// the file and line of the primary location.
pub open spec fn display_head(d: Diagnostic) -> Seq<char> {
    (if d.level == DiagnosticLevel::Error {
        "[Error]: "@ + d.code@ + " Error:\n"@
    } else {
        "[Warning]: "@ + d.code@ + " Warning:\n"@
    }) + "   | "@ + d.context.primary_location.file@ + ":"@ + dec(d.context.primary_location.line as nat) + "\n   |\n"@
}

/// The line that lists one suggestion.
pub open spec fn suggestion_line(s: Seq<char>) -> Seq<char> {
    "    - "@ + s + "\n"@
}

impl Diagnostic {
    /// Renders the diagnostic against the source text it points into: a
    /// header, up to two lines before the primary line, the primary line with
    /// a caret underline and the message, each secondary location with its
    /// label, then the help paragraph and the suggestions.
    pub fn display(&self, source_code: &str) -> (r: String)
        ensures
            exists|before: Seq<char>, secondary: Seq<char>|
                r@ == display_head(*self) + before + primary_part(*self, text_lines(source_code@)) + secondary
                    + help_part(*self) + suggestions_part(self.context.suggestions@),
    {
        let mut output = match self.level {
            DiagnosticLevel::Error => join3("[Error]: ", self.code.as_str(), " Error:\n"),
            DiagnosticLevel::Warning => join3("[Warning]: ", self.code.as_str(), " Warning:\n"),
        };
        let primary = &self.context.primary_location;
        output.append("   | ");
        output.append(primary.file.as_str());
        output.append(":");
        output.append(usize_text(primary.line).as_str());
        output.append("\n   |\n");
        proof {
            assert(output@ =~= display_head(*self));
        }
        let lines = lines_of(source_code);
        let mut before = String::new();
        let start_line = if primary.line >= 3 {
            primary.line - 3
        } else {
            0
        };
        let stop = if primary.line >= 1 {
            primary.line - 1
        } else {
            0
        };
        let mut i = start_line;
        while i < stop
            invariant
                stop <= primary.line,
            decreases stop - i,
        {
            if i < lines.len() {
                before.append(line_number(i + 1).as_str());
                before.append(" | ");
                before.append(lines[i].as_str());
                before.append("\n");
            }
            i = i + 1;
        }
        let prim = self.primary_text(&lines, source_code);
        let mut secondary = String::new();
        let mut k: usize = 0;
        while k < self.context.secondary_locations.len()
            decreases self.context.secondary_locations.len() - k,
        {
            let (loc, msg) = (&self.context.secondary_locations[k].0, &self.context.secondary_locations[k].1);
            secondary.append("   |\n");
            if loc.line > 0 && loc.line <= lines.len() {
                secondary.append(line_number(loc.line).as_str());
                secondary.append(" |> ");
                secondary.append(lines[loc.line - 1].as_str());
                secondary.append("\n   | ");
                let pad = if loc.column >= 1 {
                    loc.column - 1
                } else {
                    0
                };
                let marks = if loc.length >= 1 {
                    loc.length
                } else {
                    1
                };
                secondary.append(spaces(pad).as_str());
                secondary.append(repeat_char('^', marks).as_str());
                secondary.append(" ");
                secondary.append(msg.as_str());
                secondary.append("\n");
            }
            k = k + 1;
        }
        let help = self.help_text();
        let sugg = suggestions_text(&self.context.suggestions);
        let ghost h0 = output@;
        output.append(before.as_str());
        output.append(prim.as_str());
        output.append(secondary.as_str());
        output.append(help.as_str());
        output.append(sugg.as_str());
        proof {
            assert(output@ =~= h0 + before@ + prim@ + secondary@ + help@ + sugg@);
        }
        output
    }

    fn primary_text(&self, lines: &Vec<String>, source_code: &str) -> (r: String)
        requires
            lines@.map_values(|l: String| l@) == text_lines(source_code@),
        ensures
            r@ == primary_part(*self, text_lines(source_code@)),
    {
        let primary = &self.context.primary_location;
        let mut out = String::new();
        if primary.line > 0 && primary.line <= lines.len() {
            out.append(line_number(primary.line).as_str());
            out.append(" |> ");
            out.append(lines[primary.line - 1].as_str());
            out.append("\n   | ");
            let pad = if primary.column >= 1 {
                primary.column - 1
            } else {
                0
            };
            let marks = if primary.length >= 1 {
                primary.length - 1
            } else {
                0
            };
            out.append(spaces(pad).as_str());
            out.append(repeat_char('^', marks).as_str());
            out.append("^ ");
            out.append(self.message.as_str());
            out.append("\n");
            proof {
                assert(lines@.map_values(|l: String| l@)[primary.line - 1] == lines@[primary.line - 1]@);
                assert(out@ =~= primary_part(*self, text_lines(source_code@)));
            }
        } else {
            proof {
                assert(lines@.map_values(|l: String| l@).len() == lines@.len());
                assert(out@ =~= primary_part(*self, text_lines(source_code@)));
            }
        }
        out
    }

    fn help_text(&self) -> (r: String)
        ensures
            r@ == help_part(*self),
    {
        match &self.context.help_message {
            Some(help) => {
                let mut out = String::from_str("   |\n   ");
                out.append(repeat_char('-', 72).as_str());
                out.append("\n   |-> help:\n");
                let help_lines = lines_of(help.as_str());
                let ghost hl = help_lines@.map_values(|l: String| l@);
                let ghost start = out@;
                let mut h: usize = 0;
                while h < help_lines.len()
                    invariant
                        h <= help_lines@.len(),
                        hl == help_lines@.map_values(|l: String| l@),
                        out@ == start + indented_lines(hl.subrange(0, h as int)),
                    decreases help_lines.len() - h,
                {
                    proof {
                        assert(hl.subrange(0, h + 1).drop_last() =~= hl.subrange(0, h as int));
                        assert(hl[h as int] == help_lines@[h as int]@);
                    }
                    out.append("    ");
                    out.append(help_lines[h].as_str());
                    out.append("\n");
                    h = h + 1;
                }
                proof {
                    assert(hl.subrange(0, h as int) =~= hl);
                }
                out
            },
            None => String::new(),
        }
    }
}

fn suggestions_text(ss: &Vec<String>) -> (r: String)
    ensures
        r@ == suggestions_part(ss@),
{
    if ss.len() == 0 {
        return String::new();
    }
    let mut out = String::from_str("   |\n   |-> suggestions:\n");
    let ghost start = out@;
    let mut j: usize = 0;
    while j < ss.len()
        invariant
            j <= ss@.len(),
            out@ == start + suggestion_lines(ss@.subrange(0, j as int)),
        decreases ss.len() - j,
    {
        proof {
            assert(ss@.subrange(0, j + 1).drop_last() =~= ss@.subrange(0, j as int));
        }
        out.append("    - ");
        out.append(ss[j].as_str());
        out.append("\n");
        j = j + 1;
    }
    proof {
        assert(ss@.subrange(0, j as int) =~= ss@);
    }
    out
}

} // verus!
