use vstd::prelude::*;
use crate::ast::Expr;
use crate::typecheck::{find_latest, latest, spells};
use crate::diagnostics::{join2, join3, join4, join5, text, ErrorContext};
use crate::emitter::{temp_name, Codegen};
use crate::text::{dec, signed_dec, usize_text};
use crate::types::{lemma_type_views, type_views, Ty, Type};

verus! {

proof fn lemma_comparison_is_not_plus(op: Seq<char>)
    ensures
        crate::typecheck::is_comparison(op) ==> op != "+"@,
{
    reveal_strlit("+");
    reveal_strlit("==");
    reveal_strlit("!=");
    reveal_strlit("<");
    reveal_strlit(">");
    reveal_strlit("<=");
    reveal_strlit(">=");
    reveal_strlit("&&");
    reveal_strlit("||");
    assert("+"@[0] != "<"@[0] && "+"@[0] != ">"@[0]);
    assert("+"@.len() != "=="@.len() && "+"@.len() != "!="@.len() && "+"@.len() != "<="@.len());
    assert("+"@.len() != ">="@.len() && "+"@.len() != "&&"@.len() && "+"@.len() != "||"@.len());
}

/// Whether a binary operator may combine operands of these two types.
pub open spec fn binop_allowed(op: Seq<char>, l: Ty, r: Ty) -> bool {
    if op == "+"@ || op == "-"@ || op == "*"@ || op == "/"@ || op == "%"@ {
        ((l is Int && r is Int) || (l is Float && r is Float) || ((l is Str || l is ConstStr) && (
        r is Str || r is ConstStr))) && (!(l is Str || l is ConstStr) || op == "+"@)
    } else if op == "&"@ || op == "|"@ || op == "^"@ || op == "<<"@ || op == ">>"@ {
        l is Int && r is Int
    } else if op == "=="@ || op == "!="@ || op == "<"@ || op == "<="@ || op == ">"@ || op == ">="@ {
        (l is Int && r is Int) || (l is Float && r is Float) || (l is Bool && r is Bool) || (l is Char
            && r is Char) || (l is Ptr && r is Ptr)
    } else if op == "&&"@ || op == "||"@ {
        (l is Bool && r is Bool) || (l is Int && r is Int)
    } else {
        false
    }
}

fn is_text_type(t: &Type) -> (r: bool)
    ensures
        r == (t@ is Str || t@ is ConstStr),
{
    match t {
        Type::Str { .. } | Type::ConstStr => true,
        _ => false,
    }
}

fn void_type() -> (r: Type)
    ensures
        r@ == Ty::Void,
{
    Type::Void
}

/// The payload type of a `none`: the payload of the expected option type,
/// or void when no option type is expected.
pub open spec fn none_payload(expected: Option<&Type>) -> Ty {
    match expected {
        Some(t) => match t@ {
            Ty::Option { inner } => *inner,
            _ => Ty::Void,
        },
        None => Ty::Void,
    }
}

impl Codegen {
    /// Whether a binary operator may combine operands of these two types.
    pub fn binop_types_compatible_str(&self, left: &Type, right: &Type, op: &String) -> (r: bool)
        ensures
            r == binop_allowed(op@, left@, right@),
    {
        let arith = spells(op, "+") || spells(op, "-") || spells(op, "*") || spells(op, "/") || spells(op, "%");
        let bits = spells(op, "&") || spells(op, "|") || spells(op, "^") || spells(op, "<<") || spells(op, ">>");
        let cmp = spells(op, "==") || spells(op, "!=") || spells(op, "<") || spells(op, "<=") || spells(op, ">") || spells(op, ">=");
        let logic = spells(op, "&&") || spells(op, "||");
        if arith {
            let ints = matches!(left, Type::Int { .. }) && matches!(right, Type::Int { .. });
            let floats = matches!(left, Type::Float { .. }) && matches!(right, Type::Float { .. });
            let texts = is_text_type(left) && is_text_type(right);
            (ints || floats || texts) && (!is_text_type(left) || spells(op, "+"))
        } else if bits {
            matches!(left, Type::Int { .. }) && matches!(right, Type::Int { .. })
        } else if cmp {
            (matches!(left, Type::Int { .. }) && matches!(right, Type::Int { .. }))
                || (matches!(left, Type::Float { .. }) && matches!(right, Type::Float { .. }))
                || (matches!(left, Type::Bool) && matches!(right, Type::Bool))
                || (matches!(left, Type::Char { .. }) && matches!(right, Type::Char { .. }))
                || (matches!(left, Type::Ptr(_)) && matches!(right, Type::Ptr(_)))
        } else if logic {
            (matches!(left, Type::Bool) && matches!(right, Type::Bool))
                || (matches!(left, Type::Int { .. }) && matches!(right, Type::Int { .. }))
        } else {
            false
        }
    }

    /// Records an emitter error.
    pub(crate) fn fail(&mut self, code: &str, message: &str, help: &str)
        requires
            old(self).wf(),
        ensures
            final(self).lowered_from(*old(self)),
            final(self).type_registry == old(self).type_registry,
            final(self).ir == old(self).ir,
            final(self).var_count == old(self).var_count,
            final(self).label_count == old(self).label_count,
            final(self).diagnostics.error_count > 0,
            final(self).diagnostics.reported().len() == old(self).diagnostics.reported().len() + 1,
            old(self).diagnostics.error_count < usize::MAX ==> final(self).diagnostics.error_count == old(self).diagnostics.error_count + 1,
    {
        let ctx = ErrorContext {
            primary_location: self.default_location(),
            secondary_locations: Vec::new(),
            help_message: Some(text(help)),
            suggestions: Vec::new(),
        };
        self.diagnostics.error(code, message, ctx);
    }

    /// The C local and type bound to a source variable.
    pub fn codegen_var(&mut self, name: &String) -> (r: Result<(String, Type), ()>)
        requires
            old(self).wf(),
        ensures
            final(self).var_count == old(self).var_count,
            r is Err ==> final(self).failed_for_cause(*old(self)),
            final(self).lowered_from(*old(self)),
            final(self).type_registry == old(self).type_registry,
            final(self).ir == old(self).ir,
            final(self).var_count == old(self).var_count,
            match latest(old(self).vars@, name@) {
                Some(info) => r is Ok && r->Ok_0.0@ == info.c_name@ && r->Ok_0.1@ == info.ty@,
                None => r is Err && final(self).diagnostics.error_count > 0
                    && final(self).diagnostics.reported().len() == old(self).diagnostics.reported().len() + 1,
            },
            latest(old(self).vars@, name@) is Some ==> final(self).diagnostics == old(self).diagnostics,
    {
        match find_latest(&self.vars, name.as_str()) {
            Some(k) => Ok((self.vars[k].1.c_name.clone(), self.vars[k].1.ty.duplicate())),
            None => {
                let msg = join3("Variable '", name.as_str(), "' has not been declared in this scope.");
                let help = join3("Cannot find variable '", name.as_str(), "' in the current scope.");
                self.fail("UndefinedVariable", msg.as_str(), help.as_str());
                Err(())
            },
        }
    }

    /// Lowers `none`: an option record with tag 0.
    pub fn codegen_none(&mut self, expected_type: Option<&Type>, body: &mut String) -> (r: Result<(String, Type), ()>)
        requires
            old(self).wf(),
        ensures
            final(self).var_count <= old(self).var_count + 1,
            r is Err ==> failed_within(*final(self), *old(self), 1),
            old(self).var_count < usize::MAX ==> r is Ok,
            r is Err ==> final(self).failed_for_cause(*old(self)),
            final(self).lowered_from(*old(self)),
            old(body)@.is_prefix_of(final(body)@),
            r is Ok ==> r->Ok_0.0@ == temp_name(old(self).var_count as nat)
                && r->Ok_0.1@ == (Ty::Option { inner: Box::new(none_payload(expected_type)) })
                && final(body)@ == old(body)@ + crate::types::ctype_ty(r->Ok_0.1@) + " "@ + r->Ok_0.0@ + " = { .tag = "@
                    + crate::emitter::none_tag_text() + " };\n"@,
            final(self).type_registry.ids().contains(
                crate::registry::type_id(Ty::Option { inner: Box::new(none_payload(expected_type)) })->0,
            ),
    {
        let inner = match expected_type {
            Some(Type::Option { inner }) => inner.duplicate(),
            _ => void_type(),
        };
        proof {
            assert(inner@ == none_payload(expected_type));
        }
        let opt = Type::Option { inner: Box::new(inner) };
        proof {
            assert(opt@ == (Ty::Option { inner: Box::new(none_payload(expected_type)) }));
        }
        self.ensure_type_defined(&opt);
        let tmp = self.temp()?;
        let ghost before = body@;
        body.append(opt.to_c_type(&self.arch).as_str());
        body.append(" ");
        body.append(tmp.as_str());
        body.append(" = { .tag = ");
        body.append("0");
        body.append(" };\n");
        proof {
            assert(before.is_prefix_of(body@)) by {
                assert(body@.subrange(0, before.len() as int) =~= before);
            }
        }
        Ok((tmp, opt))
    }
}

/// `a` is a prefix of `a` followed by anything.
pub proof fn lemma_prefix_append(a: Seq<char>, b: Seq<char>)
    ensures
        a.is_prefix_of(a + b),
{
    assert((a + b).subrange(0, a.len() as int) =~= a);
}

/// Being a prefix is transitive.
pub proof fn lemma_prefix_trans(a: Seq<char>, b: Seq<char>, c: Seq<char>)
    requires
        a.is_prefix_of(b),
        b.is_prefix_of(c),
    ensures
        a.is_prefix_of(c),
{
    assert(c.subrange(0, a.len() as int) =~= b.subrange(0, a.len() as int));
}

/// Being a prefix is transitive, for sequences of any kind.
pub proof fn lemma_prefix_trans_any<T>(a: Seq<T>, b: Seq<T>, c: Seq<T>)
    requires
        a.is_prefix_of(b),
        b.is_prefix_of(c),
    ensures
        a.is_prefix_of(c),
{
    assert(c.subrange(0, a.len() as int) =~= b.subrange(0, a.len() as int));
}

/// Appends `s` to `body`.
fn emit(body: &mut String, s: &str)
    ensures
        final(body)@ == old(body)@ + s@,
        old(body)@.is_prefix_of(final(body)@),
{
    body.append(s);
    proof {
        lemma_prefix_append(old(body)@, s@);
    }
}

/// The text that reads the value out of an option record, exiting with code
/// 1 when it holds none.
pub open spec fn unwrap_option_text(x: Seq<char>, c: Seq<char>, t: Seq<char>) -> Seq<char> {
    "if ("@ + x + ".tag == "@ + crate::emitter::none_tag_text() + ") {\n    fprintf(stderr, \"unwrap called on None\\n\");\n    exit(1);\n}\n"@ + c + " "@ + t + " = "@ + x + ".value;\n"@
}

/// The text that reads the success value out of a result record, exiting
/// with code 1 when it holds an error.
pub open spec fn unwrap_result_text(x: Seq<char>, c: Seq<char>, t: Seq<char>) -> Seq<char> {
    "if ("@ + x + ".tag != "@ + crate::emitter::ok_tag_text() + ") {\n    fprintf(stderr, \"unwrap called on Err\\n\");\n    exit(1);\n}\n"@ + c + " "@ + t + " = "@ + x + ".data.ok;\n"@
}

impl Codegen {
    /// Wraps an already lowered value `v` of type `ty` in an option record
    /// with tag 1.
    pub fn some_of(&mut self, v: &String, ty: Type, body: &mut String) -> (r: Result<(String, Type), ()>)
        requires
            old(self).wf(),
        ensures
            final(self).var_count <= old(self).var_count + 1,
            r is Err ==> failed_within(*final(self), *old(self), 1),
            old(self).var_count < usize::MAX ==> r is Ok,
            r is Err ==> final(self).failed_for_cause(*old(self)),
            final(self).lowered_from(*old(self)),
            old(body)@.is_prefix_of(final(body)@),
            r is Ok ==> r->Ok_0.1@ == (Ty::Option { inner: Box::new(ty@) }) && r->Ok_0.0@ == temp_name(old(self).var_count as nat)
                && final(body)@ == old(body)@ + crate::types::ctype_ty(r->Ok_0.1@) + " "@ + r->Ok_0.0@ + " = { .tag = "@ + crate::emitter::some_tag_text() + ", .value = "@ + v@ + " };\n"@,
    {
        let opt = Type::Option { inner: Box::new(ty) };
        self.ensure_type_defined(&opt);
        let tmp = self.temp()?;
        let c = opt.to_c_type(&self.arch);
        let ghost start = body@;
        body.append(c.as_str());
        body.append(" ");
        body.append(tmp.as_str());
        body.append(" = { .tag = ");
        body.append("1");
        body.append(", .value = ");
        body.append(v.as_str());
        body.append(" };\n");
        proof {
            lemma_prefix_append(start, body@.subrange(start.len() as int, body@.len() as int));
            assert(body@ =~= start + body@.subrange(start.len() as int, body@.len() as int));
        }
        Ok((tmp, opt))
    }

    /// Reads the payload out of an already lowered option, result or pointer
    /// `x` of type `ty`; any other value is handed back as it is.
    pub fn unwrap_of(&mut self, x: &String, ty: Type, body: &mut String) -> (r: Result<(String, Type), ()>)
        requires
            old(self).wf(),
        ensures
            final(self).var_count <= old(self).var_count + 1,
            r is Err ==> failed_within(*final(self), *old(self), 1),
            old(self).var_count < usize::MAX ==> r is Ok,
            r is Err ==> final(self).failed_for_cause(*old(self)),
            final(self).lowered_from(*old(self)),
            old(body)@.is_prefix_of(final(body)@),
            ty@ is Option && r is Ok ==> r->Ok_0.1@ == *(ty@->Option_inner) && r->Ok_0.0@ == temp_name(old(self).var_count as nat)
                && final(body)@ == old(body)@ + unwrap_option_text(x@, crate::types::ctype_ty(r->Ok_0.1@), r->Ok_0.0@),
            ty@ is Result && r is Ok ==> r->Ok_0.1@ == *(ty@->Result_ok) && r->Ok_0.0@ == temp_name(old(self).var_count as nat)
                && final(body)@ == old(body)@ + unwrap_result_text(x@, crate::types::ctype_ty(r->Ok_0.1@), r->Ok_0.0@),
            !(ty@ is Option || ty@ is Result || ty@ is Ptr) ==> r is Ok && r->Ok_0.0@ == x@ && r->Ok_0.1@ == ty@ && final(body)@ == old(body)@,
    {
        match ty {
            Type::Option { inner } => {
                let tmp = self.temp()?;
                let c = inner.to_c_type(&self.arch);
                let ghost start = body@;
                body.append("if (");
                body.append(x.as_str());
                body.append(".tag == ");
                body.append("0");
                body.append(") {\n    fprintf(stderr, \"unwrap called on None\\n\");\n    exit(1);\n}\n");
                body.append(c.as_str());
                body.append(" ");
                body.append(tmp.as_str());
                body.append(" = ");
                body.append(x.as_str());
                body.append(".value;\n");
                proof {
                    assert(body@ =~= start + unwrap_option_text(x@, c@, tmp@));
                    lemma_prefix_append(start, unwrap_option_text(x@, c@, tmp@));
                }
                Ok((tmp, *inner))
            },
            Type::Result { ok, .. } => {
                let tmp = self.temp()?;
                let c = ok.to_c_type(&self.arch);
                let ghost start = body@;
                body.append("if (");
                body.append(x.as_str());
                body.append(".tag != ");
                body.append("0");
                body.append(") {\n    fprintf(stderr, \"unwrap called on Err\\n\");\n    exit(1);\n}\n");
                body.append(c.as_str());
                body.append(" ");
                body.append(tmp.as_str());
                body.append(" = ");
                body.append(x.as_str());
                body.append(".data.ok;\n");
                proof {
                    assert(body@ =~= start + unwrap_result_text(x@, c@, tmp@));
                    lemma_prefix_append(start, unwrap_result_text(x@, c@, tmp@));
                }
                Ok((tmp, *ok))
            },
            Type::Ptr(inner) => {
                let tmp = self.temp()?;
                let c = inner.to_c_type(&self.arch);
                let ghost start = body@;
                body.append("if (");
                body.append(x.as_str());
                body.append(" == NULL) {\n    fprintf(stderr, \"unwrap called on null pointer\\n\");\n    exit(1);\n}\n");
                body.append(c.as_str());
                body.append(" ");
                body.append(tmp.as_str());
                body.append(" = *");
                body.append(x.as_str());
                body.append(";\n");
                proof {
                    lemma_prefix_append(start, body@.subrange(start.len() as int, body@.len() as int));
                    assert(body@ =~= start + body@.subrange(start.len() as int, body@.len() as int));
                }
                Ok((tmp, *inner))
            },
            other => {
                proof {
                    lemma_prefix_append(body@, Seq::empty());
                    assert(body@ + Seq::<char>::empty() =~= body@);
                }
                Ok((x.clone(), other))
            },
        }
    }

    /// Wraps an already lowered value in a result record: tag 0 with the
    /// value as success when `is_ok`, tag 1 with the value as error otherwise.
    /// Inside a function that returns a result, that result type is used.
    pub fn result_of(&mut self, v: &String, ty: Type, is_ok: bool, body: &mut String) -> (r: Result<(String, Type), ()>)
        requires
            old(self).wf(),
        ensures
            final(self).var_count <= old(self).var_count + 1,
            r is Err ==> failed_within(*final(self), *old(self), 1),
            old(self).var_count < usize::MAX ==> r is Ok,
            r is Err ==> final(self).failed_for_cause(*old(self)),
            final(self).lowered_from(*old(self)),
            old(body)@.is_prefix_of(final(body)@),
            r is Ok ==> r->Ok_0.1@ is Result && r->Ok_0.0@ == temp_name(old(self).var_count as nat)
                && final(body)@.subrange(old(body)@.len() as int, final(body)@.len() as int)
                    == crate::types::ctype_ty(r->Ok_0.1@) + " "@ + r->Ok_0.0@ + (if is_ok {
                        " = { .tag = "@ + crate::emitter::ok_tag_text() + ", .data.ok = "@
                    } else {
                        " = { .tag = "@ + crate::emitter::err_tag_text() + ", .data.err = "@
                    }) + v@ + " };\n"@,
    {
        let result_type = match &self.current_return_type {
            Some(Type::Result { ok, err }) => Type::Result { ok: Box::new(ok.duplicate()), err: Box::new(err.duplicate()) },
            _ => if is_ok {
                Type::Result { ok: Box::new(ty.duplicate()), err: Box::new(Type::Str { len_type: Box::new(Type::i64()) }) }
            } else {
                Type::Result { ok: Box::new(Type::Void), err: Box::new(ty.duplicate()) }
            },
        };
        self.ensure_type_defined(&result_type);
        let side = match &result_type {
            Type::Result { ok, err } => if is_ok {
                ok.duplicate()
            } else {
                err.duplicate()
            },
            _ => Type::Any,
        };
        if !crate::typecheck::types_compatible(&side, &ty) {
            let msg = join4("Cannot put ", ty.name().as_str(), " in Result with side type ", side.name().as_str());
            self.fail("TypeMismatch", msg.as_str(), "The value must match the declared Result type.");
        }
        let tmp = self.temp()?;
        let c = result_type.to_c_type(&self.arch);
        let ghost start = body@;
        body.append(c.as_str());
        body.append(" ");
        body.append(tmp.as_str());
        body.append(" = { .tag = ");
        body.append(if is_ok {
            "0"
        } else {
            "1"
        });
        body.append(if is_ok {
            ", .data.ok = "
        } else {
            ", .data.err = "
        });
        body.append(v.as_str());
        body.append(" };\n");
        proof {
            lemma_prefix_append(start, body@.subrange(start.len() as int, body@.len() as int));
            assert(body@ =~= start + body@.subrange(start.len() as int, body@.len() as int));
        }
        Ok((tmp, result_type))
    }
}

impl Codegen {
    /// Lowers an expression: every sub-expression goes into a fresh local,
    /// the text is appended to `body`, and the local and its type come back.
    pub fn codegen_expr(&mut self, expr: &Expr, body: &mut String) -> (r: Result<(String, Type), ()>)
        requires
            old(self).wf(),
        ensures
            final(self).var_count <= old(self).var_count + expr_cost(*expr),
            r is Err ==> failed_within(*final(self), *old(self), expr_cost(*expr)),
            r is Err ==> final(self).failed_for_cause(*old(self)),
            final(self).lowered_from(*old(self)),
            old(body)@.is_prefix_of(final(body)@),
            expr is Number && r is Ok ==> r->Ok_0.1@ == (Ty::Int { bits: 32, signed: true })
                && r->Ok_0.0@ == temp_name(old(self).var_count as nat)
                && final(body)@ == old(body)@ + "int32_t "@ + r->Ok_0.0@ + " = "@ + signed_dec(expr->Number_0 as int) + ";\n"@,
            expr is Bool && r is Ok ==> r->Ok_0.1@ == Ty::Bool && r->Ok_0.0@ == temp_name(old(self).var_count as nat)
                && final(body)@ == old(body)@ + "bool "@ + r->Ok_0.0@ + " = "@ + (if expr->Bool_0 {
                    "true"@
                } else {
                    "false"@
                }) + ";\n"@,
            expr is Float && r is Ok ==> r->Ok_0.1@ == (Ty::Float { bits: 32 }) && r->Ok_0.0@ == temp_name(old(self).var_count as nat)
                && final(body)@ == old(body)@ + "float "@ + r->Ok_0.0@ + " = "@ + expr->Float_0@ + ";\n"@,
            expr is Var && r is Ok ==> final(body)@ == old(body)@ && latest(old(self).vars@, expr->Var_0@) is Some
                && r->Ok_0.0@ == latest(old(self).vars@, expr->Var_0@)->0.c_name@
                && r->Ok_0.1@ == latest(old(self).vars@, expr->Var_0@)->0.ty@,
            expr is Var && latest(old(self).vars@, expr->Var_0@) is Some ==> r is Ok,
            (expr is Number || expr is Bool || expr is Float || expr is Char || expr is String) && old(self).var_count < usize::MAX ==> r is Ok,
        decreases expr, 2nat,
    {
        match expr {
            Expr::Number(n) => {
                if self.var_count == usize::MAX {
                    return Err(());
                }
                let ghost start = body@;
                let r = self.codegen_number(*n, body);
                proof {
                    lemma_prefix_append(start, body@.subrange(start.len() as int, body@.len() as int));
                    assert(body@ =~= start + body@.subrange(start.len() as int, body@.len() as int));
                }
                Ok(r)
            },
            Expr::Float(f) => {
                if self.var_count == usize::MAX {
                    return Err(());
                }
                let ghost start = body@;
                let r = self.codegen_float(f.as_str(), body);
                proof {
                    assert(body@ =~= start + body@.subrange(start.len() as int, body@.len() as int));
                    lemma_prefix_append(start, body@.subrange(start.len() as int, body@.len() as int));
                }
                Ok(r)
            },
            Expr::Bool(b) => {
                if self.var_count == usize::MAX {
                    return Err(());
                }
                let ghost start = body@;
                let r = self.codegen_bool(*b, body);
                proof {
                    assert(body@ =~= start + body@.subrange(start.len() as int, body@.len() as int));
                    lemma_prefix_append(start, body@.subrange(start.len() as int, body@.len() as int));
                }
                Ok(r)
            },
            Expr::Char(c) => {
                if self.var_count == usize::MAX {
                    return Err(());
                }
                let ghost start = body@;
                let r = self.codegen_char(*c, body);
                proof {
                    assert(body@ =~= start + body@.subrange(start.len() as int, body@.len() as int));
                    lemma_prefix_append(start, body@.subrange(start.len() as int, body@.len() as int));
                }
                Ok(r)
            },
            Expr::HexNumber(n) | Expr::BinaryNumber(n) | Expr::OctalNumber(n) => {
                if self.var_count == usize::MAX {
                    return Err(());
                }
                let ghost start = body@;
                let r = match expr {
                    Expr::HexNumber(_) => self.codegen_hex_number(*n, body),
                    Expr::BinaryNumber(_) => self.codegen_binary_number(*n, body),
                    _ => self.codegen_octal_number(*n, body),
                };
                proof {
                    assert(body@ =~= start + body@.subrange(start.len() as int, body@.len() as int));
                    lemma_prefix_append(start, body@.subrange(start.len() as int, body@.len() as int));
                }
                Ok(r)
            },
            Expr::String(text_value) => {
                if self.var_count == usize::MAX {
                    return Err(());
                }
                let ghost start = body@;
                let r = self.codegen_string(text_value.as_str(), body);
                proof {
                    assert(body@ =~= start + body@.subrange(start.len() as int, body@.len() as int));
                    lemma_prefix_append(start, body@.subrange(start.len() as int, body@.len() as int));
                }
                Ok(r)
            },
            Expr::Var(name) => {
                let r = self.codegen_var(name);
                proof {
                    lemma_prefix_append(body@, Seq::empty());
                    assert(body@ + Seq::<char>::empty() =~= body@);
                }
                r
            },
            Expr::NoneValue => self.codegen_none(None, body),
            Expr::SomeValue(inner) => {
                let (v, t) = self.codegen_expr(inner, body)?;
                let ghost mid = body@;
                let r = self.some_of(&v, t, body);
                proof {
                    lemma_prefix_trans(old(body)@, mid, body@);
                }
                r
            },
            Expr::ResultOk(inner) | Expr::ResultErr(inner) => {
                let (v, t) = self.codegen_expr(inner, body)?;
                let ghost mid = body@;
                let is_ok = matches!(expr, Expr::ResultOk(_));
                let r = self.result_of(&v, t, is_ok, body);
                proof {
                    lemma_prefix_trans(old(body)@, mid, body@);
                }
                r
            },
            Expr::Unwrap(inner) => {
                let (v, t) = self.codegen_expr(inner, body)?;
                let ghost mid = body@;
                let r = self.unwrap_of(&v, t, body);
                proof {
                    lemma_prefix_trans(old(body)@, mid, body@);
                }
                r
            },
            Expr::Call(..) => self.codegen_call_expr(expr, None, body),
            Expr::BinOp(..) => self.codegen_binop(expr, body),
            Expr::CallNamed(..) => self.codegen_call_named(expr, body),
            Expr::UnOp(..) => self.codegen_unop(expr, body),
            Expr::Not(..) => self.codegen_not(expr, body),
            Expr::Tuple(..) => self.codegen_tuple(expr, body),
            Expr::Array(..) => self.codegen_array(expr, body),
            Expr::Index(..) => self.codegen_index(expr, body),
            Expr::MemberAccess(..) => self.codegen_member_access(expr, body),
            Expr::MethodCall(..) => self.codegen_method_call(expr, body),
            Expr::Pipe(left, right) => {
                let v = self.codegen_expr(left, body)?;
                let ghost mid = body@;
                let r = if matches!(**right, Expr::Call(..)) {
                    self.codegen_call_expr(right, Some(v), body)
                } else {
                    self.codegen_expr(right, body)
                };
                proof {
                    lemma_prefix_trans(old(body)@, mid, body@);
                }
                r
            },
            Expr::ReferenceTo(ty) => {
                let ghost start = body@;
                let r = self.codegen_reference_to(ty, body);
                proof {
                    assert(body@ =~= start + body@.subrange(start.len() as int, body@.len() as int));
                    lemma_prefix_append(start, body@.subrange(start.len() as int, body@.len() as int));
                }
                r
            },
            Expr::SizeOf(ty) | Expr::AlignOf(ty) => {
                let tmp = self.temp()?;
                let c = ty.to_c_type(&self.arch);
                let ghost start = body@;
                body.append("size_t ");
                body.append(tmp.as_str());
                body.append(if matches!(expr, Expr::SizeOf(_)) {
                    " = sizeof("
                } else {
                    " = _Alignof("
                });
                body.append(c.as_str());
                body.append(");\n");
                proof {
                    assert(body@ =~= start + body@.subrange(start.len() as int, body@.len() as int));
                    lemma_prefix_append(start, body@.subrange(start.len() as int, body@.len() as int));
                }
                Ok((tmp, Type::i64()))
            },
            _ => {
                let msg = "Unsupported expression";
                self.fail("UnsupportedExpression", msg, "This expression type is not yet implemented.");
                proof {
                    lemma_prefix_append(body@, Seq::empty());
                    assert(body@ + Seq::<char>::empty() =~= body@);
                }
                Err(())
            },
        }
    }
}

/// An upper bound on the temporaries that lowering `e` takes: three for
/// each node, plus what its sub-expressions take.
pub open spec fn expr_cost(e: Expr) -> nat
    decreases e,
{
    3 + match e {
        Expr::SomeValue(x) => expr_cost(*x),
        Expr::ResultOk(x) => expr_cost(*x),
        Expr::ResultErr(x) => expr_cost(*x),
        Expr::Unwrap(x) => expr_cost(*x),
        Expr::UnOp(_, x) => expr_cost(*x),
        Expr::Not(x) => expr_cost(*x),
        Expr::MemberAccess(x, _) => expr_cost(*x),
        Expr::BinOp(_, l, r) => expr_cost(*l) + expr_cost(*r),
        Expr::Pipe(l, r) => expr_cost(*l) + expr_cost(*r),
        Expr::Call(_, a) => exprs_cost(a@),
        Expr::Tuple(a) => exprs_cost(a@),
        Expr::Array(a) => exprs_cost(a@),
        Expr::Index(x, a) => expr_cost(*x) + exprs_cost(a@),
        Expr::MethodCall(x, _, a) => expr_cost(*x) + exprs_cost(a@),
        Expr::CallNamed(_, n) => named_cost(n@),
        _ => 0,
    }
}

/// The temporaries that lowering every expression of `s` takes at most.
pub open spec fn exprs_cost(s: Seq<Expr>) -> nat
    decreases s,
{
    if s.len() == 0 {
        0
    } else {
        exprs_cost(s.drop_last()) + expr_cost(s.last())
    }
}

/// The temporaries that lowering every named argument takes at most.
pub open spec fn named_cost(s: Seq<(String, Expr)>) -> nat
    decreases s,
{
    if s.len() == 0 {
        0
    } else {
        named_cost(s.drop_last()) + expr_cost(s.last().1)
    }
}

pub proof fn lemma_exprs_cost_prefix(s: Seq<Expr>, i: int)
    requires
        0 <= i <= s.len(),
    ensures
        exprs_cost(s.subrange(0, i)) <= exprs_cost(s),
    decreases s.len(),
{
    if i == s.len() {
        assert(s.subrange(0, i) =~= s);
    } else {
        lemma_exprs_cost_prefix(s.drop_last(), i);
        assert(s.drop_last().subrange(0, i) =~= s.subrange(0, i));
    }
}

proof fn lemma_named_cost_prefix(s: Seq<(String, Expr)>, i: int)
    requires
        0 <= i <= s.len(),
    ensures
        named_cost(s.subrange(0, i)) <= named_cost(s),
    decreases s.len(),
{
    if i == s.len() {
        assert(s.subrange(0, i) =~= s);
    } else {
        lemma_named_cost_prefix(s.drop_last(), i);
        assert(s.drop_last().subrange(0, i) =~= s.subrange(0, i));
    }
}

/// A failed lowering of something that takes at most `cost` temporaries
/// either reported a diagnostic or had no room left for them.
pub open spec fn failed_within(new: Codegen, old: Codegen, cost: nat) -> bool {
    ||| new.diagnostics.reported().len() > old.diagnostics.reported().len()
    ||| old.var_count + cost > usize::MAX
}

/// The type of the last field named `f` in `fs`.
pub open spec fn field_type(fs: Seq<(String, Type, bool)>, f: Seq<char>) -> Option<Ty>
    decreases fs.len(),
{
    if fs.len() == 0 {
        None
    } else if fs.last().0@ == f {
        Some(fs.last().1@)
    } else {
        field_type(fs.drop_last(), f)
    }
}

/// The struct whose fields a value of type `t` gives access to: a struct,
/// or a pointer or reference to one.
pub open spec fn member_struct(t: Ty) -> Option<Seq<char>> {
    match t {
        Ty::Struct { name } => Some(name),
        Ty::Ptr(i) => match *i {
            Ty::Struct { name } => Some(name),
            _ => None,
        },
        Ty::Ref(i) => match *i {
            Ty::Struct { name } => Some(name),
            _ => None,
        },
        Ty::MutRef(i) => match *i {
            Ty::Struct { name } => Some(name),
            _ => None,
        },
        Ty::Owned(i) => match *i {
            Ty::Struct { name } => Some(name),
            _ => None,
        },
        _ => None,
    }
}

/// The view of an optional type.
pub open spec fn payload_view(p: Option<Type>) -> Option<Ty> {
    match p {
        Some(t) => Some(t@),
        None => None,
    }
}

/// Whether `args` is the argument list held directly by `parent`.
pub open spec fn args_of(parent: Expr, args: Vec<Expr>) -> bool {
    match parent {
        Expr::Call(_, a) => a == args,
        Expr::Tuple(a) => a == args,
        Expr::Array(a) => a == args,
        Expr::Index(_, a) => a == args,
        Expr::MethodCall(_, _, a) => a == args,
        _ => false,
    }
}

/// The C spellings of the values in `vals`, separated by `", "`.
pub open spec fn joined_names(vals: Seq<(String, Type)>) -> Seq<char>
    decreases vals.len(),
{
    if vals.len() == 0 {
        Seq::empty()
    } else if vals.len() == 1 {
        vals[0].0@
    } else {
        joined_names(vals.drop_last()) + ", "@ + vals.last().0@
    }
}

fn join_names(vals: &Vec<(String, Type)>) -> (r: String)
    ensures
        r@ == joined_names(vals@),
{
    let mut out = String::new();
    let mut i: usize = 0;
    while i < vals.len()
        invariant
            i <= vals.len(),
            out@ == joined_names(vals@.subrange(0, i as int)),
        decreases vals.len() - i,
    {
        proof {
            assert(vals@.subrange(0, i + 1).drop_last() =~= vals@.subrange(0, i as int));
        }
        if i > 0 {
            out.append(", ");
        }
        out.append(vals[i].0.as_str());
        i = i + 1;
        proof {
            if i == 1 {
                assert(out@ =~= vals@[0].0@);
            }
        }
    }
    proof {
        assert(vals@.subrange(0, i as int) =~= vals@);
    }
    out
}

/// The `printf` conversion for a value of type `t`.
pub open spec fn format_spec(t: Ty) -> Seq<char> {
    match t {
        Ty::Int { .. } => "%d"@,
        Ty::Float { .. } => "%f"@,
        Ty::Str { .. } => "%s"@,
        Ty::ConstStr => "%s"@,
        Ty::Bool => "%s"@,
        Ty::Char { .. } => "%c"@,
        _ => "%p"@,
    }
}

/// The conversions of `vals`, separated by spaces.
pub open spec fn format_of(vals: Seq<(String, Type)>) -> Seq<char>
    decreases vals.len(),
{
    if vals.len() == 0 {
        Seq::empty()
    } else if vals.len() == 1 {
        format_spec(vals[0].1@)
    } else {
        format_of(vals.drop_last()) + " "@ + format_spec(vals.last().1@)
    }
}

/// How a value is handed to `printf`: an owned string by its pointer, a
/// boolean as the word it stands for.
pub open spec fn print_arg(v: Seq<char>, t: Ty) -> Seq<char> {
    match t {
        Ty::Str { .. } => v + ".ptr"@,
        Ty::Bool => "("@ + v + " ? \"true\" : \"false\")"@,
        _ => v,
    }
}

/// The arguments of the `printf` call, each after `", "`.
pub open spec fn print_args(vals: Seq<(String, Type)>) -> Seq<char>
    decreases vals.len(),
{
    if vals.len() == 0 {
        Seq::empty()
    } else {
        print_args(vals.drop_last()) + ", "@ + print_arg(vals.last().0@, vals.last().1@)
    }
}

/// Whether one of the first `n` arguments is a string literal holding a carriage return.
pub open spec fn has_carriage_return(args: Seq<Expr>, n: int) -> bool {
    exists|i: int|
        0 <= i < n && i < args.len() && #[trigger] args[i] is String && crate::text::occurs_in(
            vstd::utf8::encode_utf8("\r"@),
            vstd::utf8::encode_utf8(args[i]->String_0@),
        )
}

/// Whether `func` with `n` arguments is one of the built-in calls.
pub open spec fn is_builtin_call(func: Seq<char>, n: int) -> bool {
    func == "print"@ || func == "println"@ || (n == 1 && func == "some"@) || (n == 0 && func == "none"@) || (n == 1 && (
    func == "ok"@ || func == "err"@)) || (n == 1 && func == "unwrap"@)
}

impl Codegen {
    /// Lowers each argument in order.
    fn lower_args(&mut self, parent: &Expr, args: &Vec<Expr>, body: &mut String) -> (r: Result<Vec<(String, Type)>, ()>)
        requires
            old(self).wf(),
            args_of(*parent, *args),
        ensures
            final(self).var_count <= old(self).var_count + exprs_cost(args@),
            r is Err ==> failed_within(*final(self), *old(self), exprs_cost(args@)),
            r is Err ==> final(self).failed_for_cause(*old(self)),
            final(self).lowered_from(*old(self)),
            old(body)@.is_prefix_of(final(body)@),
            r is Ok ==> r->Ok_0@.len() == args@.len(),
        decreases parent, 0nat,
    {
        let mut out: Vec<(String, Type)> = Vec::new();
        let mut i: usize = 0;
        while i < args.len()
            invariant
                i <= args.len(),
                args_of(*parent, *args),
                out@.len() == i,
                self.lowered_from(*old(self)),
                old(body)@.is_prefix_of(body@),
                self.var_count <= old(self).var_count + exprs_cost(args@.subrange(0, i as int)),
            decreases args.len() - i,
        {
            let ghost mid = body@;
            proof {
                assert(args@.subrange(0, i + 1).drop_last() =~= args@.subrange(0, i as int));
                lemma_exprs_cost_prefix(args@, i + 1);
            }
            let v = self.codegen_expr(&args[i], body)?;
            proof {
                lemma_prefix_trans(old(body)@, mid, body@);
            }
            out.push(v);
            i = i + 1;
        }
        proof {
            assert(args@.subrange(0, i as int) =~= args@);
        }
        Ok(out)
    }

    /// Lowers a call: struct constructors, the built-ins `print`, `some`,
    /// `none`, `ok`, `err` and `unwrap`, and every other function by name.
    /// With `first`, that already lowered value is the first argument.
    pub fn codegen_call_expr(&mut self, call: &Expr, first: Option<(String, Type)>, body: &mut String) -> (r: Result<(String, Type), ()>)
        requires
            old(self).wf(),
            call is Call,
        ensures
            final(self).var_count <= old(self).var_count + expr_cost(*call),
            r is Err ==> failed_within(*final(self), *old(self), expr_cost(*call)),
            r is Err ==> final(self).failed_for_cause(*old(self)),
            final(self).lowered_from(*old(self)),
            old(body)@.is_prefix_of(final(body)@),
            first is None && !is_builtin_call(call->Call_0@, call->Call_1@.len() as int) && latest(old(self).structs@, call->Call_0@) is Some
                && r is Ok ==> r->Ok_0.1@ == (Ty::Struct { name: call->Call_0@ }),
            first is None && call->Call_0@ == "some"@ && call->Call_1@.len() == 1 && r is Ok ==> r->Ok_0.1@ is Option,
        decreases call, 1nat,
    {
        let (func, args) = match call {
            Expr::Call(f, a) => (f, a),
            _ => {
                proof {
                    lemma_prefix_append(body@, Seq::empty());
                    assert(body@ + Seq::<char>::empty() =~= body@);
                }
                return Err(());
            },
        };
        let mut vals: Vec<(String, Type)> = Vec::new();
        match first {
            Some(v) => vals.push(v),
            None => {},
        }
        let ghost n0 = vals@.len();
        let rest = self.lower_args(call, args, body)?;
        let mut k: usize = 0;
        while k < rest.len()
            invariant
                k <= rest.len(),
                vals@.len() == n0 + k,
            decreases rest.len() - k,
        {
            vals.push((rest[k].0.clone(), rest[k].1.duplicate()));
            k = k + 1;
        }
        let ghost mid = body@;
        let r = self.call_with(func, args, &vals, body);
        proof {
            lemma_prefix_trans(old(body)@, mid, body@);
        }
        r
    }

    /// Emits the call of `func` on the already lowered `vals`.
    pub(crate) fn call_with(&mut self, func: &String, args: &Vec<Expr>, vals: &Vec<(String, Type)>, body: &mut String) -> (r: Result<(String, Type), ()>)
        requires
            old(self).wf(),
        ensures
            final(self).var_count <= old(self).var_count + 1,
            r is Err ==> failed_within(*final(self), *old(self), 1),
            r is Err ==> final(self).failed_for_cause(*old(self)),
            final(self).lowered_from(*old(self)),
            old(body)@.is_prefix_of(final(body)@),
            (func@ == "print"@ || func@ == "println"@) && r is Ok ==> r->Ok_0.1@ == (Ty::Int { bits: 32, signed: true })
                && final(body)@ == old(body)@ + "int32_t "@ + r->Ok_0.0@ + " = printf(\""@ + format_of(vals@) + (if has_carriage_return(args@, vals@.len() as int) {
                    Seq::empty()
                } else {
                    "\\n"@
                }) + "\""@ + print_args(vals@) + ");\n"@,
            func@ == "some"@ && vals@.len() == 1 && r is Ok ==> r->Ok_0.1@ == (Ty::Option { inner: Box::new(vals@[0].1@) }),
            func@ == "unwrap"@ && vals@.len() == 1 && vals@[0].1@ is Option && r is Ok ==> r->Ok_0.1@ == *(vals@[0].1@->Option_inner),
            func@ == "unwrap"@ && vals@.len() == 1 && vals@[0].1@ is Result && r is Ok ==> r->Ok_0.1@ == *(vals@[0].1@->Result_ok),
            !is_builtin_call(func@, vals@.len() as int) && latest(old(self).structs@, func@) is Some && r is Ok
                ==> r->Ok_0.1@ == (Ty::Struct { name: func@ }) && final(body)@ == old(body)@ + func@ + " "@ + r->Ok_0.0@ + " = "@ + func@ + "_new("@ + joined_names(vals@) + ");\n"@,
    {
        proof {
            reveal_strlit("print");
            reveal_strlit("println");
            reveal_strlit("some");
            reveal_strlit("none");
            reveal_strlit("ok");
            reveal_strlit("err");
            reveal_strlit("unwrap");
            assert("print"@.len() == 5 && "println"@.len() == 7 && "some"@.len() == 4 && "unwrap"@.len() == 6);
            assert("print"@ != "some"@ && "println"@ != "some"@ && "print"@ != "unwrap"@ && "println"@ != "unwrap"@);
        }
        if spells(func, "print") || spells(func, "println") {
            return self.print_call(args, vals, body);
        }
        if vals.len() == 1 && spells(func, "some") {
            return self.some_of(&vals[0].0, vals[0].1.duplicate(), body);
        }
        if vals.len() == 0 && spells(func, "none") {
            return self.codegen_none(None, body);
        }
        if vals.len() == 1 && (spells(func, "ok") || spells(func, "err")) {
            return self.result_of(&vals[0].0, vals[0].1.duplicate(), spells(func, "ok"), body);
        }
        if vals.len() == 1 && spells(func, "unwrap") {
            return self.unwrap_of(&vals[0].0, vals[0].1.duplicate(), body);
        }
        let ghost start = body@;
        let names = join_names(vals);
        if find_latest(&self.structs, func.as_str()).is_some() {
            let tmp = self.temp()?;
            body.append(func.as_str());
            body.append(" ");
            body.append(tmp.as_str());
            body.append(" = ");
            body.append(func.as_str());
            body.append("_new(");
            body.append(names.as_str());
            body.append(");\n");
            proof {
                assert(body@ =~= start + body@.subrange(start.len() as int, body@.len() as int));
                lemma_prefix_append(start, body@.subrange(start.len() as int, body@.len() as int));
            }
            return Ok((tmp, Type::Struct { name: func.clone() }));
        }
        let ret = match find_latest(&self.user_functions, func.as_str()) {
            Some(k) => self.user_functions[k].1.return_type.duplicate(),
            None => Type::i32(),
        };
        let c_name = if spells(func, "main") {
            text("vix_main")
        } else {
            func.clone()
        };
        if ret.is_void() {
            body.append(c_name.as_str());
            body.append("(");
            body.append(names.as_str());
            body.append(");\n");
            proof {
                assert(body@ =~= start + body@.subrange(start.len() as int, body@.len() as int));
                lemma_prefix_append(start, body@.subrange(start.len() as int, body@.len() as int));
            }
            return Ok((text("0"), Type::Void));
        }
        self.ensure_type_defined(&ret);
        let tmp = self.temp()?;
        body.append(ret.to_c_type(&self.arch).as_str());
        body.append(" ");
        body.append(tmp.as_str());
        body.append(" = ");
        body.append(c_name.as_str());
        body.append("(");
        body.append(names.as_str());
        body.append(");\n");
        proof {
            assert(body@ =~= start + body@.subrange(start.len() as int, body@.len() as int));
            lemma_prefix_append(start, body@.subrange(start.len() as int, body@.len() as int));
        }
        Ok((tmp, ret))
    }

    /// Emits a `printf` whose format follows the argument types: `%d` for
    /// integers, `%f` for floats, `%s` for strings and booleans, `%c` for
    /// characters and `%p` otherwise; a newline ends it unless a string
    /// literal among the arguments holds a carriage return.
    fn print_call(&mut self, args: &Vec<Expr>, vals: &Vec<(String, Type)>, body: &mut String) -> (r: Result<(String, Type), ()>)
        requires
            old(self).wf(),
        ensures
            final(self).var_count <= old(self).var_count + 1,
            r is Err ==> failed_within(*final(self), *old(self), 1),
            r is Err ==> final(self).failed_for_cause(*old(self)),
            final(self).lowered_from(*old(self)),
            old(body)@.is_prefix_of(final(body)@),
            r is Ok ==> r->Ok_0.1@ == (Ty::Int { bits: 32, signed: true }) && final(body)@ == old(body)@ + "int32_t "@ + r->Ok_0.0@
                + " = printf(\""@ + format_of(vals@) + (if has_carriage_return(args@, vals@.len() as int) {
                    Seq::empty()
                } else {
                    "\\n"@
                }) + "\""@ + print_args(vals@) + ");\n"@,
    {
        let mut format = String::new();
        let mut list = String::new();
        let mut has_r = false;
        let mut i: usize = 0;
        while i < vals.len()
            invariant
                i <= vals.len(),
                format@ == format_of(vals@.subrange(0, i as int)),
                list@ == print_args(vals@.subrange(0, i as int)),
                has_r == has_carriage_return(args@, i as int),
            decreases vals.len() - i,
        {
            proof {
                assert(vals@.subrange(0, i + 1).drop_last() =~= vals@.subrange(0, i as int));
            }
            let v = vals[i].0.as_str();
            if i > 0 {
                format.append(" ");
            }
            list.append(", ");
            match &vals[i].1 {
                Type::Int { .. } => {
                    format.append("%d");
                    list.append(v);
                },
                Type::Float { .. } => {
                    format.append("%f");
                    list.append(v);
                },
                Type::Str { .. } => {
                    format.append("%s");
                    list.append(v);
                    list.append(".ptr");
                },
                Type::ConstStr => {
                    format.append("%s");
                    list.append(v);
                },
                Type::Bool => {
                    format.append("%s");
                    list.append("(");
                    list.append(v);
                    list.append(" ? \"true\" : \"false\")");
                },
                Type::Char { .. } => {
                    format.append("%c");
                    list.append(v);
                },
                _ => {
                    format.append("%p");
                    list.append(v);
                },
            }
            if i < args.len() {
                if let Expr::String(lit) = &args[i] {
                    if crate::text::contains_text(lit.as_str(), "\r") {
                        has_r = true;
                    }
                }
            }
            i = i + 1;
            proof {
                if i == 1 {
                    assert(format@ =~= format_spec(vals@[0].1@));
                }
            }
        }
        proof {
            assert(vals@.subrange(0, i as int) =~= vals@);
        }
        let ghost fmt_before = format@;
        if !has_r {
            format.append("\\n");
        }
        proof {
            if has_r {
                assert(format@ =~= fmt_before + Seq::<char>::empty());
            }
        }
        let tmp = self.temp()?;
        let ghost start = body@;
        body.append("int32_t ");
        body.append(tmp.as_str());
        body.append(" = printf(\"");
        body.append(format.as_str());
        body.append("\"");
        body.append(list.as_str());
        body.append(");\n");
        proof {
            assert(body@ =~= start + body@.subrange(start.len() as int, body@.len() as int));
            lemma_prefix_append(start, body@.subrange(start.len() as int, body@.len() as int));
        }
        Ok((tmp, Type::i32()))
    }
}

impl Codegen {
    /// Lowers a binary operation. Void operands (VoidOperand), operand types
    /// the operator does not take (IncompatibleTypes) and unknown operators
    /// (UnsupportedBinOp) are errors. `+` on strings concatenates.
    pub fn codegen_binop(&mut self, e: &Expr, body: &mut String) -> (r: Result<(String, Type), ()>)
        requires
            old(self).wf(),
            e is BinOp,
        ensures
            final(self).var_count <= old(self).var_count + expr_cost(*e),
            r is Err ==> failed_within(*final(self), *old(self), expr_cost(*e)),
            r is Err ==> final(self).failed_for_cause(*old(self)),
            final(self).lowered_from(*old(self)),
            old(body)@.is_prefix_of(final(body)@),
            r is Ok ==> !(r->Ok_0.1@ is Void),
            r is Ok && crate::typecheck::is_comparison(e->BinOp_0@) ==> r->Ok_0.1@ == Ty::Bool,
        decreases e, 1nat,
    {
        let (op, left, right) = match e {
            Expr::BinOp(op, l, r) => (op, l, r),
            _ => {
                proof {
                    lemma_prefix_append(body@, Seq::empty());
                    assert(body@ + Seq::<char>::empty() =~= body@);
                }
                return Err(());
            },
        };
        let (l_var, l_ty) = self.codegen_expr(left, body)?;
        let ghost m1 = body@;
        let (r_var, r_ty) = self.codegen_expr(right, body)?;
        let ghost m2 = body@;
        proof {
            lemma_prefix_trans(old(body)@, m1, m2);
        }
        let ghost m3 = body@;
        proof {
            lemma_comparison_is_not_plus(op@);
        }
        let r = self.binop_of(op, l_var, l_ty, r_var, r_ty, body);
        proof {
            lemma_prefix_trans(old(body)@, m3, body@);
        }
        r
    }

    /// Combines two lowered operands with a binary operator.
    pub fn binop_of(&mut self, op: &String, l_var: String, l_ty: Type, r_var: String, r_ty: Type, body: &mut String) -> (r: Result<(String, Type), ()>)
        requires
            old(self).wf(),
        ensures
            final(self).var_count <= old(self).var_count + 3,
            r is Err ==> failed_within(*final(self), *old(self), 3),
            !(l_ty@ is Void || r_ty@ is Void) && binop_allowed(op@, l_ty@, r_ty@) && old(self).var_count + 3 <= usize::MAX ==> r is Ok,
            r is Err ==> final(self).failed_for_cause(*old(self)),
            final(self).lowered_from(*old(self)),
            old(body)@.is_prefix_of(final(body)@),
            (l_ty@ is Void || r_ty@ is Void) ==> r is Err && final(self).diagnostics.error_count > 0 && final(body)@ == old(body)@,
            !(l_ty@ is Void || r_ty@ is Void) && !binop_allowed(op@, l_ty@, r_ty@) ==> r is Err && final(self).diagnostics.error_count > 0
                && final(body)@ == old(body)@,
            r is Ok && (l_ty@ is Str || l_ty@ is ConstStr) && op@ == "+"@ ==> r->Ok_0.1@ == (Ty::Str { len_type: Box::new(Ty::Int { bits: 64, signed: true }) }),
            r is Ok && !((l_ty@ is Str || l_ty@ is ConstStr) && op@ == "+"@) ==> r->Ok_0.1@ == (if crate::typecheck::is_comparison(op@) {
                Ty::Bool
            } else {
                l_ty@
            }) && final(body)@ == old(body)@ + crate::types::ctype_ty(r->Ok_0.1@) + " "@ + r->Ok_0.0@ + " = "@ + l_var@ + " "@ + op@ + " "@ + r_var@ + ";\n"@,
    {
        proof {
            lemma_prefix_append(body@, Seq::empty());
            assert(body@ + Seq::<char>::empty() =~= body@);
        }
        let ghost start = body@;
        if l_ty.is_void() || r_ty.is_void() {
            let msg = join3("Operand of '", op.as_str(), "' cannot be void");
            self.fail("VoidOperand", msg.as_str(), "Void cannot be used in binary operations.");
            return Err(());
        }
        if !self.binop_types_compatible_str(&l_ty, &r_ty, op) {
            let mut msg = join5("Cannot apply '", op.as_str(), "' to types ", l_ty.name().as_str(), " and ");
            msg.append(r_ty.name().as_str());
            self.fail("IncompatibleTypes", msg.as_str(), "The operator requires compatible types.");
            return Err(());
        }
        if is_text_type(&l_ty) && spells(op, "+") {
            let mut lv = l_var;
            let mut rv = r_var;
            if matches!(l_ty, Type::ConstStr) {
                let t = self.temp()?;
                emit(body, "String ");
                emit(body, t.as_str());
                emit(body, " = string_from_const(");
                emit(body, lv.as_str());
                emit(body, ");\n");
                lv = t;
            }
            if matches!(r_ty, Type::ConstStr) {
                let t = self.temp()?;
                emit(body, "String ");
                emit(body, t.as_str());
                emit(body, " = string_from_const(");
                emit(body, rv.as_str());
                emit(body, ");\n");
                rv = t;
            }
            let t = self.temp()?;
            emit(body, "String ");
            emit(body, t.as_str());
            emit(body, " = string_concat(");
            emit(body, lv.as_str());
            emit(body, ", ");
            emit(body, rv.as_str());
            emit(body, ");\n");
            return Ok((t, Type::Str { len_type: Box::new(Type::i64()) }));
        }
        let comparison = crate::typecheck::spells(op, "==") || spells(op, "!=") || spells(op, "<")
            || spells(op, "<=") || spells(op, ">") || spells(op, ">=") || spells(op, "&&") || spells(op, "||");
        let result_ty = if comparison {
            Type::Bool
        } else {
            l_ty
        };
        let c = result_ty.to_c_type(&self.arch);
        let t = self.temp()?;
        let ghost before = body@;
        emit(body, c.as_str());
        emit(body, " ");
        emit(body, t.as_str());
        emit(body, " = ");
        emit(body, l_var.as_str());
        emit(body, " ");
        emit(body, op.as_str());
        emit(body, " ");
        emit(body, r_var.as_str());
        emit(body, ";\n");
        proof {
            assert(body@ =~= before + crate::types::ctype_ty(result_ty@) + " "@ + t@ + " = "@ + l_var@ + " "@ + op@ + " "@ + r_var@ + ";\n"@);
        }
        Ok((t, result_ty))
    }
}

impl Codegen {
    /// Lowers a unary operation: `&` takes an address, `*` reads through a
    /// pointer, any other operator is applied as it is written.
    pub fn codegen_unop(&mut self, e: &Expr, body: &mut String) -> (r: Result<(String, Type), ()>)
        requires
            old(self).wf(),
            e is UnOp,
        ensures
            final(self).var_count <= old(self).var_count + expr_cost(*e),
            r is Err ==> failed_within(*final(self), *old(self), expr_cost(*e)),
            r is Err ==> final(self).failed_for_cause(*old(self)),
            final(self).lowered_from(*old(self)),
            old(body)@.is_prefix_of(final(body)@),
        decreases e, 1nat,
    {
        let (op, operand) = match e {
            Expr::UnOp(op, x) => (op, x),
            _ => {
                proof {
                    lemma_prefix_append(body@, Seq::empty());
                    assert(body@ + Seq::<char>::empty() =~= body@);
                }
                return Err(());
            },
        };
        let (var, ty) = self.codegen_expr(operand, body)?;
        let ghost m = body@;
        let r = self.unop_of(op, var, ty, body);
        proof {
            lemma_prefix_trans(old(body)@, m, body@);
        }
        r
    }

    /// Applies a unary operator to a lowered operand: `&` takes its address,
    /// `*` reads through a pointer, any other operator is written before it.
    pub fn unop_of(&mut self, op: &String, var: String, ty: Type, body: &mut String) -> (r: Result<(String, Type), ()>)
        requires
            old(self).wf(),
        ensures
            final(self).lowered_from(*old(self)),
            old(body)@.is_prefix_of(final(body)@),
            final(self).var_count <= old(self).var_count + 1,
            r is Err ==> failed_within(*final(self), *old(self), 1),
            r is Err ==> final(self).failed_for_cause(*old(self)),
            ty@ is Void ==> r is Err && final(body)@ == old(body)@
                && final(self).diagnostics.reported().len() == old(self).diagnostics.reported().len() + 1,
            op@ == "*"@ && !(ty@ is Ptr && !(*(ty@->Ptr_0) is Void)) ==> r is Err,
            !(ty@ is Void) && (op@ != "*"@ || (ty@ is Ptr && !(*(ty@->Ptr_0) is Void))) && old(self).var_count < usize::MAX ==> r is Ok,
            r is Ok && op@ == "&"@ ==> r->Ok_0.1@ == Ty::Ptr(Box::new(ty@)) && final(body)@ == old(body)@ + crate::types::ctype_ty(ty@)
                + "* "@ + r->Ok_0.0@ + " = &"@ + var@ + ";\n"@,
            r is Ok && op@ == "*"@ ==> r->Ok_0.1@ == *(ty@->Ptr_0) && final(body)@ == old(body)@ + crate::types::ctype_ty(r->Ok_0.1@)
                + " "@ + r->Ok_0.0@ + " = *"@ + var@ + ";\n"@,
            r is Ok && op@ != "&"@ && op@ != "*"@ ==> r->Ok_0.1@ == ty@ && final(body)@ == old(body)@ + crate::types::ctype_ty(ty@)
                + " "@ + r->Ok_0.0@ + " = "@ + op@ + var@ + ";\n"@,
    {
        proof {
            reveal_strlit("&");
            reveal_strlit("*");
            assert("&"@[0] != "*"@[0]);
            lemma_prefix_append(body@, Seq::empty());
            assert(body@ + Seq::<char>::empty() =~= body@);
        }
        let ghost start = body@;
        if ty.is_void() {
            let msg = join3("Cannot apply '", op.as_str(), "' to void type");
            self.fail("VoidOperand", msg.as_str(), "Void cannot be used in unary operations.");
            return Err(());
        }
        if spells(op, "&") {
            let c = ty.to_c_type(&self.arch);
            let t = self.temp()?;
            emit(body, c.as_str());
            emit(body, "* ");
            emit(body, t.as_str());
            emit(body, " = &");
            emit(body, var.as_str());
            emit(body, ";\n");
            proof {
                assert(body@ =~= start + crate::types::ctype_ty(ty@) + "* "@ + t@ + " = &"@ + var@ + ";\n"@);
            }
            return Ok((t, Type::Ptr(Box::new(ty))));
        }
        if spells(op, "*") {
            match ty {
                Type::Ptr(inner) => {
                    if inner.is_void() {
                        self.fail("VoidDereference", "Cannot dereference void pointer without cast", "Cast to a concrete type before dereferencing.");
                        return Err(());
                    }
                    let c = inner.to_c_type(&self.arch);
                    let t = self.temp()?;
                    emit(body, c.as_str());
                    emit(body, " ");
                    emit(body, t.as_str());
                    emit(body, " = *");
                    emit(body, var.as_str());
                    emit(body, ";\n");
                    proof {
                        assert(body@ =~= start + crate::types::ctype_ty(inner@) + " "@ + t@ + " = *"@ + var@ + ";\n"@);
                    }
                    return Ok((t, *inner));
                },
                _ => {
                    self.fail("InvalidDereference", "Cannot dereference non-pointer type", "Dereference operator (*) can only be applied to pointer types.");
                    return Err(());
                },
            }
        }
        let c = ty.to_c_type(&self.arch);
        let t = self.temp()?;
        emit(body, c.as_str());
        emit(body, " ");
        emit(body, t.as_str());
        emit(body, " = ");
        emit(body, op.as_str());
        emit(body, var.as_str());
        emit(body, ";\n");
        proof {
            assert(body@ =~= start + crate::types::ctype_ty(ty@) + " "@ + t@ + " = "@ + op@ + var@ + ";\n"@);
        }
        Ok((t, ty))
    }

    /// Lowers a logical negation of a boolean or integer.
    pub fn codegen_not(&mut self, e: &Expr, body: &mut String) -> (r: Result<(String, Type), ()>)
        requires
            old(self).wf(),
            e is Not,
        ensures
            final(self).var_count <= old(self).var_count + expr_cost(*e),
            r is Err ==> failed_within(*final(self), *old(self), expr_cost(*e)),
            r is Err ==> final(self).failed_for_cause(*old(self)),
            final(self).lowered_from(*old(self)),
            old(body)@.is_prefix_of(final(body)@),
            r is Ok ==> r->Ok_0.1@ == Ty::Bool,
        decreases e, 1nat,
    {
        let inner = match e {
            Expr::Not(x) => x,
            _ => {
                proof {
                    lemma_prefix_append(body@, Seq::empty());
                    assert(body@ + Seq::<char>::empty() =~= body@);
                }
                return Err(());
            },
        };
        let (var, ty) = self.codegen_expr(inner, body)?;
        match ty {
            Type::Bool | Type::Int { .. } => {
                let t = self.temp()?;
                emit(body, "bool ");
                emit(body, t.as_str());
                emit(body, " = !");
                emit(body, var.as_str());
                emit(body, ";\n");
                Ok((t, Type::Bool))
            },
            _ => {
                let msg = join2("Cannot apply NOT operator to type ", ty.name().as_str());
                self.fail("InvalidNot", msg.as_str(), "NOT operator can only be applied to boolean or integer types.");
                Err(())
            },
        }
    }

    /// Lowers a tuple: each component, then one record of the tuple type.
    pub fn codegen_tuple(&mut self, e: &Expr, body: &mut String) -> (r: Result<(String, Type), ()>)
        requires
            old(self).wf(),
            e is Tuple,
        ensures
            final(self).var_count <= old(self).var_count + expr_cost(*e),
            r is Err ==> failed_within(*final(self), *old(self), expr_cost(*e)),
            r is Err ==> final(self).failed_for_cause(*old(self)),
            final(self).lowered_from(*old(self)),
            old(body)@.is_prefix_of(final(body)@),
            r is Ok ==> r->Ok_0.1@ is Tuple,
        decreases e, 1nat,
    {
        let elements = match e {
            Expr::Tuple(es) => es,
            _ => {
                proof {
                    lemma_prefix_append(body@, Seq::empty());
                    assert(body@ + Seq::<char>::empty() =~= body@);
                }
                return Err(());
            },
        };
        let vals = self.lower_args(e, elements, body)?;
        let mut fields: Vec<Type> = Vec::new();
        let mut i: usize = 0;
        while i < vals.len()
            invariant
                i <= vals.len(),
            decreases vals.len() - i,
        {
            fields.push(vals[i].1.duplicate());
            i = i + 1;
        }
        let tuple = Type::Tuple { fields };
        self.ensure_type_defined(&tuple);
        let t = self.temp()?;
        emit(body, tuple.to_c_type(&self.arch).as_str());
        emit(body, " ");
        emit(body, t.as_str());
        emit(body, " = { ");
        emit(body, join_names(&vals).as_str());
        emit(body, " };\n");
        Ok((t, tuple))
    }

    /// Lowers an array literal to a stack array of the first element's type.
    pub fn codegen_array(&mut self, e: &Expr, body: &mut String) -> (r: Result<(String, Type), ()>)
        requires
            old(self).wf(),
            e is Array,
        ensures
            final(self).var_count <= old(self).var_count + expr_cost(*e),
            r is Err ==> failed_within(*final(self), *old(self), expr_cost(*e)),
            r is Err ==> final(self).failed_for_cause(*old(self)),
            final(self).lowered_from(*old(self)),
            old(body)@.is_prefix_of(final(body)@),
            r is Ok ==> r->Ok_0.1@ is Array,
        decreases e, 1nat,
    {
        let elements = match e {
            Expr::Array(es) => es,
            _ => {
                proof {
                    lemma_prefix_append(body@, Seq::empty());
                    assert(body@ + Seq::<char>::empty() =~= body@);
                }
                return Err(());
            },
        };
        let vals = self.lower_args(e, elements, body)?;
        let element = if vals.len() > 0 {
            vals[0].1.duplicate()
        } else {
            Type::i32()
        };
        if element.is_void() {
            self.fail("VoidArrayElement", "Arrays cannot contain void elements", "Array elements must be concrete types.");
            return Err(());
        }
        let t = self.temp()?;
        emit(body, element.to_c_type(&self.arch).as_str());
        emit(body, " ");
        emit(body, t.as_str());
        emit(body, "[");
        emit(body, usize_text(vals.len()).as_str());
        emit(body, "] = { ");
        emit(body, join_names(&vals).as_str());
        emit(body, " };\n");
        Ok((t, Type::Array { element: Box::new(element), size: Some(vals.len()) }))
    }

    /// Lowers an element read `a[i]` of an array.
    pub fn codegen_index(&mut self, e: &Expr, body: &mut String) -> (r: Result<(String, Type), ()>)
        requires
            old(self).wf(),
            e is Index,
        ensures
            final(self).var_count <= old(self).var_count + expr_cost(*e),
            r is Err ==> failed_within(*final(self), *old(self), expr_cost(*e)),
            r is Err ==> final(self).failed_for_cause(*old(self)),
            final(self).lowered_from(*old(self)),
            old(body)@.is_prefix_of(final(body)@),
        decreases e, 1nat,
    {
        let (arr, indices) = match e {
            Expr::Index(a, i) => (a, i),
            _ => {
                proof {
                    lemma_prefix_append(body@, Seq::empty());
                    assert(body@ + Seq::<char>::empty() =~= body@);
                }
                return Err(());
            },
        };
        let (a_var, a_ty) = self.codegen_expr(arr, body)?;
        let idx = self.lower_args(e, indices, body)?;
        let (element, access) = match a_ty {
            Type::Array { element, size: None } => (*element, join2(a_var.as_str(), ".ptr")),
            Type::Array { element, .. } => (*element, a_var),
            Type::MultiArray { element, .. } => (*element, a_var),
            _ => {
                self.fail("InvalidIndex", "Cannot index non-array type", "Only arrays support indexing.");
                return Err(());
            },
        };
        let t = self.temp()?;
        emit(body, element.to_c_type(&self.arch).as_str());
        emit(body, " ");
        emit(body, t.as_str());
        emit(body, " = ");
        emit(body, access.as_str());
        let mut i: usize = 0;
        while i < idx.len()
            invariant
                i <= idx.len(),
                old(body)@.is_prefix_of(body@),
            decreases idx.len() - i,
        {
            emit(body, "[");
            emit(body, idx[i].0.as_str());
            emit(body, "]");
            i = i + 1;
        }
        emit(body, ";\n");
        Ok((t, element))
    }

    /// Lowers a field read of a struct value, or of a pointer to one.
    pub fn codegen_member_access(&mut self, e: &Expr, body: &mut String) -> (r: Result<(String, Type), ()>)
        requires
            old(self).wf(),
            e is MemberAccess,
        ensures
            final(self).var_count <= old(self).var_count + expr_cost(*e),
            r is Err ==> failed_within(*final(self), *old(self), expr_cost(*e)),
            r is Err ==> final(self).failed_for_cause(*old(self)),
            final(self).lowered_from(*old(self)),
            old(body)@.is_prefix_of(final(body)@),
        decreases e, 1nat,
    {
        let (obj, field) = match e {
            Expr::MemberAccess(o, f) => (o, f),
            _ => {
                proof {
                    lemma_prefix_append(body@, Seq::empty());
                    assert(body@ + Seq::<char>::empty() =~= body@);
                }
                return Err(());
            },
        };
        let (o_var, o_ty) = self.codegen_expr(obj, body)?;
        let ghost m = body@;
        let r = self.member_of(o_var, o_ty, field, body);
        proof {
            lemma_prefix_trans(old(body)@, m, body@);
        }
        r
    }

    /// Reads the field `field` of a lowered struct value, or of a pointer to
    /// one (through `->`).
    pub fn member_of(&mut self, o_var: String, o_ty: Type, field: &String, body: &mut String) -> (r: Result<(String, Type), ()>)
        requires
            old(self).wf(),
        ensures
            final(self).lowered_from(*old(self)),
            old(body)@.is_prefix_of(final(body)@),
            final(self).var_count <= old(self).var_count + 1,
            r is Err ==> failed_within(*final(self), *old(self), 1),
            r is Err ==> final(self).failed_for_cause(*old(self)),
            r is Ok ==> member_struct(o_ty@) is Some && latest(old(self).structs@, member_struct(o_ty@)->0) is Some
                && field_type(latest(old(self).structs@, member_struct(o_ty@)->0)->0.fields@, field@) == Some(r->Ok_0.1@)
                && final(body)@ == old(body)@ + crate::types::ctype_ty(r->Ok_0.1@) + " "@ + r->Ok_0.0@ + " = "@ + o_var@ + (if o_ty@ is Struct {
                    "."@
                } else {
                    "->"@
                }) + field@ + ";\n"@,
            member_struct(o_ty@) is Some && latest(old(self).structs@, member_struct(o_ty@)->0) is Some
                && field_type(latest(old(self).structs@, member_struct(o_ty@)->0)->0.fields@, field@) is Some
                && old(self).var_count < usize::MAX ==> r is Ok,
    {
        proof {
            lemma_prefix_append(body@, Seq::empty());
            assert(body@ + Seq::<char>::empty() =~= body@);
        }
        let (name, arrow) = match &o_ty {
            Type::Struct { name } => (name.clone(), false),
            Type::Ptr(inner) | Type::Ref(inner) | Type::MutRef(inner) | Type::Owned(inner) => match &**inner {
                Type::Struct { name } => (name.clone(), true),
                _ => {
                    self.fail("InvalidMemberAccess", "Cannot access a field of a non-struct type", "Only structs have fields.");
                    return Err(());
                },
            },
            _ => {
                self.fail("InvalidMemberAccess", "Cannot access a field of a non-struct type", "Only structs have fields.");
                return Err(());
            },
        };
        proof {
            reveal_with_fuel(crate::types::type_view, 2);
            assert(member_struct(o_ty@) == Some(name@));
            assert(arrow == !(o_ty@ is Struct));
        }
        let k = match find_latest(&self.structs, name.as_str()) {
            Some(k) => k,
            None => {
                let msg = join3("Struct '", name.as_str(), "' is not defined");
                self.fail("UndefinedStruct", msg.as_str(), "Define the struct before using it.");
                return Err(());
            },
        };
        let mut found: Option<Type> = None;
        let mut j: usize = 0;
        let ghost fs = self.structs@[k as int].1.fields@;
        while j < self.structs[k].1.fields.len()
            invariant
                k < self.structs@.len(),
                fs == self.structs@[k as int].1.fields@,
                j <= fs.len(),
                payload_view(found) == field_type(fs.subrange(0, j as int), field@),
            decreases self.structs@[k as int].1.fields@.len() - j,
        {
            proof {
                assert(fs.subrange(0, j + 1).drop_last() =~= fs.subrange(0, j as int));
            }
            if self.structs[k].1.fields[j].0 == *field {
                found = Some(self.structs[k].1.fields[j].1.duplicate());
            }
            j = j + 1;
        }
        proof {
            assert(fs.subrange(0, j as int) =~= fs);
        }
        let fty = match found {
            Some(t) => t,
            None => {
                let msg = join4("No field '", field.as_str(), "' on type ", name.as_str());
                self.fail("UnknownField", msg.as_str(), "The struct does not declare this field.");
                return Err(());
            },
        };
        let t = self.temp()?;
        let ghost start = body@;
        emit(body, fty.to_c_type(&self.arch).as_str());
        emit(body, " ");
        emit(body, t.as_str());
        emit(body, " = ");
        emit(body, o_var.as_str());
        emit(body, if arrow {
            "->"
        } else {
            "."
        });
        emit(body, field.as_str());
        emit(body, ";\n");
        proof {
            assert(body@ =~= start + crate::types::ctype_ty(fty@) + " "@ + t@ + " = "@ + o_var@ + (if arrow {
                "->"@
            } else {
                "."@
            }) + field@ + ";\n"@);
        }
        Ok((t, fty))
    }

    /// Lowers `obj.method(args)` to `Struct_method(self, args)`; an instance
    /// method receives the object's address, or the object itself when it is
    /// already a pointer.
    pub fn codegen_method_call(&mut self, e: &Expr, body: &mut String) -> (r: Result<(String, Type), ()>)
        requires
            old(self).wf(),
            e is MethodCall,
        ensures
            final(self).var_count <= old(self).var_count + expr_cost(*e),
            r is Err ==> failed_within(*final(self), *old(self), expr_cost(*e)),
            r is Err ==> final(self).failed_for_cause(*old(self)),
            final(self).lowered_from(*old(self)),
            old(body)@.is_prefix_of(final(body)@),
        decreases e, 1nat,
    {
        let (obj, method, args) = match e {
            Expr::MethodCall(o, m, a) => (o, m, a),
            _ => {
                proof {
                    lemma_prefix_append(body@, Seq::empty());
                    assert(body@ + Seq::<char>::empty() =~= body@);
                }
                return Err(());
            },
        };
        let (o_var, o_ty) = self.codegen_expr(obj, body)?;
        let (name, is_pointer) = match &o_ty {
            Type::Struct { name } => (name.clone(), false),
            Type::Ptr(inner) | Type::Ref(inner) | Type::MutRef(inner) | Type::Owned(inner) => match &**inner {
                Type::Struct { name } => (name.clone(), true),
                _ => {
                    self.fail("InvalidMethodCall", "Cannot call a method on a non-struct type", "Only structs have methods.");
                    return Err(());
                },
            },
            _ => {
                self.fail("InvalidMethodCall", "Cannot call a method on a non-struct type", "Only structs have methods.");
                return Err(());
            },
        };
        let key = join3(name.as_str(), ".", method.as_str());
        let k = match find_latest(&self.impl_methods, key.as_str()) {
            Some(k) => k,
            None => {
                let msg = join4("No method '", method.as_str(), "' on type ", name.as_str());
                self.fail("UndefinedMethod", msg.as_str(), "Declare the method in an impl block.");
                return Err(());
            },
        };
        let is_instance = self.impl_methods[k].1.is_instance;
        let ret = self.impl_methods[k].1.return_type.duplicate();
        let vals = self.lower_args(e, args, body)?;
        let mut list = String::new();
        if is_instance {
            if !is_pointer {
                list.append("&");
            }
            list.append(o_var.as_str());
            if vals.len() > 0 {
                list.append(", ");
            }
        }
        list.append(join_names(&vals).as_str());
        let callee = join3(name.as_str(), "_", method.as_str());
        if ret.is_void() {
            emit(body, callee.as_str());
            emit(body, "(");
            emit(body, list.as_str());
            emit(body, ");\n");
            return Ok((text("0"), Type::Void));
        }
        let t = self.temp()?;
        emit(body, ret.to_c_type(&self.arch).as_str());
        emit(body, " ");
        emit(body, t.as_str());
        emit(body, " = ");
        emit(body, callee.as_str());
        emit(body, "(");
        emit(body, list.as_str());
        emit(body, ");\n");
        Ok((t, ret))
    }
}

impl Codegen {
    /// Lowers a call with named arguments. A struct name calls its
    /// constructor; any other callee gets the values in the order written,
    /// and its result is taken as a 32-bit integer.
    pub fn codegen_call_named(&mut self, e: &Expr, body: &mut String) -> (r: Result<(String, Type), ()>)
        requires
            old(self).wf(),
            e is CallNamed,
        ensures
            final(self).var_count <= old(self).var_count + expr_cost(*e),
            r is Err ==> failed_within(*final(self), *old(self), expr_cost(*e)),
            r is Err ==> final(self).failed_for_cause(*old(self)),
            final(self).lowered_from(*old(self)),
            old(body)@.is_prefix_of(final(body)@),
        decreases e, 1nat,
    {
        let (name, named) = match e {
            Expr::CallNamed(n, a) => (n, a),
            _ => {
                proof {
                    lemma_prefix_append(body@, Seq::empty());
                    assert(body@ + Seq::<char>::empty() =~= body@);
                }
                return Err(());
            },
        };
        let mut vals: Vec<(String, Type)> = Vec::new();
        let mut i: usize = 0;
        while i < named.len()
            invariant
                i <= named.len(),
                e is CallNamed,
                *named == e->CallNamed_1,
                self.lowered_from(*old(self)),
                old(body)@.is_prefix_of(body@),
                self.var_count <= old(self).var_count + named_cost(named@.subrange(0, i as int)),
            decreases named.len() - i,
        {
            let ghost m = body@;
            proof {
                assert(named@.subrange(0, i + 1).drop_last() =~= named@.subrange(0, i as int));
                lemma_named_cost_prefix(named@, i + 1);
            }
            let v = self.codegen_expr(&named[i].1, body)?;
            proof {
                lemma_prefix_trans(old(body)@, m, body@);
            }
            vals.push(v);
            i = i + 1;
        }
        proof {
            assert(named@.subrange(0, i as int) =~= named@);
        }
        let names = join_names(&vals);
        let t = self.temp()?;
        if find_latest(&self.structs, name.as_str()).is_some() {
            emit(body, name.as_str());
            emit(body, " ");
            emit(body, t.as_str());
            emit(body, " = ");
            emit(body, name.as_str());
            emit(body, "_new(");
            emit(body, names.as_str());
            emit(body, ");\n");
            return Ok((t, Type::Struct { name: name.clone() }));
        }
        emit(body, "int32_t ");
        emit(body, t.as_str());
        emit(body, " = ");
        emit(body, name.as_str());
        emit(body, "(");
        emit(body, names.as_str());
        emit(body, ");\n");
        Ok((t, Type::i32()))
    }
}

/// The type number of a structural name: each byte folded in as
/// `h * 31 + b`, modulo 2^32.
pub open spec fn name_hash(bytes: Seq<u8>) -> nat
    decreases bytes.len(),
{
    if bytes.len() == 0 {
        0
    } else {
        ((name_hash(bytes.drop_last()) * 31 + bytes.last()) % 0x1_0000_0000) as nat
    }
}

/// Whether the emitter accepts `got` where `expected` is declared.
pub open spec fn emit_compat(expected: Ty, got: Ty) -> bool
    decreases expected, got,
{
    if let Ty::Const(e) = expected {
        emit_compat(*e, got)
    } else if let Ty::Const(g) = got {
        emit_compat(expected, *g)
    } else {
        match (expected, got) {
            (Ty::Int { bits: b1, signed: s1 }, Ty::Int { bits: b2, signed: s2 }) => b1 == b2 && s1 == s2,
            (Ty::Float { bits: b1 }, Ty::Float { bits: b2 }) => b1 == b2,
            (Ty::Bool, Ty::Bool) => true,
            (Ty::Void, Ty::Void) => true,
            (Ty::Char { .. }, Ty::Char { .. }) => true,
            (Ty::Str { .. }, Ty::Str { .. }) => true,
            (Ty::ConstStr, Ty::ConstStr) => true,
            (Ty::ConstStr, Ty::Str { .. }) => true,
            (Ty::Str { .. }, Ty::ConstStr) => true,
            (Ty::Ptr(e), Ty::Ptr(g)) => emit_compat(*e, *g),
            (Ty::Struct { name: n1 }, Ty::Struct { name: n2 }) => n1 == n2,
            (Ty::Array { element: e1, size: s1 }, Ty::Array { element: e2, size: s2 }) => emit_compat(*e1, *e2) && s1 == s2,
            (Ty::Tuple { fields: f1 }, Ty::Tuple { fields: f2 }) => f1.len() == f2.len() && (forall|i: int|
                0 <= i < f1.len() ==> emit_compat(#[trigger] f1[i], f2[i])),
            (Ty::Option { inner: i1 }, Ty::Option { inner: i2 }) => emit_compat(*i1, *i2),
            (Ty::Result { ok: o1, err: e1 }, Ty::Result { ok: o2, err: e2 }) => emit_compat(*o1, *o2) && emit_compat(*e1, *e2),
            _ => false,
        }
    }
}

/// Whether an arithmetic, comparison, logical or bitwise operator takes
/// operands of these types (strings excluded).
pub open spec fn plain_binop_allowed(op: Seq<char>, l: Ty, r: Ty) -> bool {
    if op == "+"@ || op == "-"@ || op == "*"@ || op == "/"@ || op == "%"@ {
        (l is Int && r is Int) || (l is Float && r is Float)
    } else if op == "=="@ || op == "!="@ || op == "<"@ || op == ">"@ || op == "<="@ || op == ">="@ {
        (l is Int && r is Int) || (l is Float && r is Float) || (l is Bool && r is Bool) || (l is Ptr && r is Ptr)
    } else if op == "&&"@ || op == "||"@ {
        (l is Bool && r is Bool) || (l is Int && r is Int)
    } else if op == "&"@ || op == "|"@ || op == "^"@ || op == "<<"@ || op == ">>"@ {
        l is Int && r is Int
    } else {
        false
    }
}

impl Codegen {
    /// Whether the emitter accepts `ty2` where `ty1` is declared.
    pub fn types_compatible(&self, ty1: &Type, ty2: &Type) -> (r: bool)
        ensures
            r == emit_compat(ty1@, ty2@),
        decreases ty1, ty2,
    {
        if let Type::Const(e) = ty1 {
            return self.types_compatible(e, ty2);
        }
        if let Type::Const(g) = ty2 {
            return self.types_compatible(ty1, g);
        }
        match (ty1, ty2) {
            (Type::Int { bits: b1, signed: s1 }, Type::Int { bits: b2, signed: s2 }) => *b1 == *b2 && *s1 == *s2,
            (Type::Float { bits: b1 }, Type::Float { bits: b2 }) => *b1 == *b2,
            (Type::Bool, Type::Bool) => true,
            (Type::Void, Type::Void) => true,
            (Type::Char { .. }, Type::Char { .. }) => true,
            (Type::Str { .. }, Type::Str { .. }) => true,
            (Type::ConstStr, Type::ConstStr) => true,
            (Type::ConstStr, Type::Str { .. }) => true,
            (Type::Str { .. }, Type::ConstStr) => true,
            (Type::Ptr(e), Type::Ptr(g)) => self.types_compatible(e, g),
            (Type::Struct { name: n1 }, Type::Struct { name: n2 }) => *n1 == *n2,
            (Type::Array { element: e1, size: s1 }, Type::Array { element: e2, size: s2 }) => {
                let same_size = match (s1, s2) {
                    (Some(a), Some(b)) => *a == *b,
                    (None, None) => true,
                    _ => false,
                };
                self.types_compatible(e1, e2) && same_size
            },
            (Type::Tuple { fields: f1 }, Type::Tuple { fields: f2 }) => {
                proof {
                    lemma_type_views(f1@);
                    lemma_type_views(f2@);
                }
                if f1.len() != f2.len() {
                    return false;
                }
                let ghost s1 = type_views(f1@);
                let ghost s2 = type_views(f2@);
                let mut i: usize = 0;
                while i < f1.len()
                    invariant
                        s1 == type_views(f1@),
                        s2 == type_views(f2@),
                        *f1 == ty1->Tuple_fields,
                        *f2 == ty2->Tuple_fields,
                        ty1@ == (Ty::Tuple { fields: s1 }),
                        ty2@ == (Ty::Tuple { fields: s2 }),
                        s1.len() == f1@.len(),
                        s2.len() == f2@.len(),
                        f1@.len() == f2@.len(),
                        forall|j: int| 0 <= j < f1@.len() ==> #[trigger] s1[j] == f1@[j]@,
                        forall|j: int| 0 <= j < f2@.len() ==> #[trigger] s2[j] == f2@[j]@,
                        i <= f1.len(),
                        forall|j: int| 0 <= j < i ==> emit_compat(#[trigger] s1[j], s2[j]),
                    decreases f1.len() - i,
                {
                    if !self.types_compatible(&f1[i], &f2[i]) {
                        proof {
                            assert(!emit_compat(s1[i as int], s2[i as int]));
                            assert(!(forall|j: int| 0 <= j < s1.len() ==> emit_compat(#[trigger] s1[j], s2[j])));
                        }
                        return false;
                    }
                    i = i + 1;
                }
                true
            },
            (Type::Option { inner: i1 }, Type::Option { inner: i2 }) => self.types_compatible(i1, i2),
            (Type::Result { ok: o1, err: e1 }, Type::Result { ok: o2, err: e2 }) => {
                let a = self.types_compatible(o1, o2);
                let b = self.types_compatible(e1, e2);
                a && b
            },
            _ => false,
        }
    }

    /// Whether an operator takes operands of these types, strings excluded.
    pub fn binop_types_compatible(&self, left: &Type, right: &Type, op: &String) -> (r: bool)
        ensures
            r == plain_binop_allowed(op@, left@, right@),
    {
        let ints = matches!(left, Type::Int { .. }) && matches!(right, Type::Int { .. });
        let floats = matches!(left, Type::Float { .. }) && matches!(right, Type::Float { .. });
        if spells(op, "+") || spells(op, "-") || spells(op, "*") || spells(op, "/") || spells(op, "%") {
            ints || floats
        } else if spells(op, "==") || spells(op, "!=") || spells(op, "<") || spells(op, ">") || spells(op, "<=") || spells(op, ">=") {
            ints || floats || (matches!(left, Type::Bool) && matches!(right, Type::Bool))
                || (matches!(left, Type::Ptr(_)) && matches!(right, Type::Ptr(_)))
        } else if spells(op, "&&") || spells(op, "||") {
            (matches!(left, Type::Bool) && matches!(right, Type::Bool)) || ints
        } else if spells(op, "&") || spells(op, "|") || spells(op, "^") || spells(op, "<<") || spells(op, ">>") {
            ints
        } else {
            false
        }
    }

    /// Lowers a reference to a type: its type number, computed from the
    /// bytes of its structural name.
    pub fn codegen_reference_to(&mut self, ty: &Type, body: &mut String) -> (r: Result<(String, Type), ()>)
        requires
            old(self).wf(),
        ensures
            final(self).var_count <= old(self).var_count + 1,
            r is Err ==> failed_within(*final(self), *old(self), 1),
            old(self).var_count < usize::MAX ==> r is Ok,
            r is Err ==> final(self).failed_for_cause(*old(self)),
            final(self).lowered_from(*old(self)),
            r is Ok ==> r->Ok_0.1@ == (Ty::Int { bits: 32, signed: false }) && r->Ok_0.0@ == temp_name(old(self).var_count as nat)
                && final(body)@ == old(body)@ + "uint32_t "@ + r->Ok_0.0@ + " = "@ + dec(name_hash(vstd::utf8::encode_utf8(crate::types::name_ty(ty@)))) + ";\n"@,
            r is Err ==> final(body)@ == old(body)@,
    {
        let name = ty.name();
        let bytes = name.as_str().as_bytes_vec();
        let mut h: u64 = 0;
        let mut i: usize = 0;
        while i < bytes.len()
            invariant
                i <= bytes.len(),
                h == name_hash(bytes@.subrange(0, i as int)),
                h < 0x1_0000_0000,
            decreases bytes.len() - i,
        {
            proof {
                assert(bytes@.subrange(0, i + 1).drop_last() =~= bytes@.subrange(0, i as int));
            }
            h = (h * 31 + bytes[i] as u64) % 0x1_0000_0000;
            i = i + 1;
        }
        proof {
            assert(bytes@.subrange(0, i as int) =~= bytes@);
        }
        let t = self.temp()?;
        body.append("uint32_t ");
        body.append(t.as_str());
        body.append(" = ");
        body.append(usize_text(h as usize).as_str());
        body.append(";\n");
        Ok((t, Type::u32()))
    }
}

} // verus!
