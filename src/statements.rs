use vstd::prelude::*;
use crate::ast::{Expr, MatchCase, Stmt};
use crate::typecheck::spells;
use crate::diagnostics::{join2, join3, text};
use crate::emitter::{Codegen, VarInfo};
use crate::lowering::{expr_cost, exprs_cost, failed_within, lemma_prefix_append, lemma_prefix_trans};
use crate::text::usize_text;
use crate::types::{ctype_ty, declarable, Ty, Type};

verus! {

/// The names of the owned variables that `stmts` declares at its own level, in order.
pub open spec fn owned_decls(stmts: Seq<Stmt>) -> Seq<Seq<char>>
    decreases stmts.len(),
{
    if stmts.len() == 0 {
        Seq::empty()
    } else {
        owned_decls(stmts.drop_last()) + owned_decl(stmts.last())
    }
}

/// The owned variable that one statement declares, if any.
pub open spec fn owned_decl(s: Stmt) -> Seq<Seq<char>> {
    match s {
        Stmt::TypedDeclaration { name, ty, .. } => if declarable(ty@) && ty@ is Owned {
            seq![name@]
        } else {
            Seq::empty()
        },
        _ => Seq::empty(),
    }
}

/// One `free` for each name, in order.
pub open spec fn release_lines(names: Seq<Seq<char>>) -> Seq<char>
    decreases names.len(),
{
    if names.len() == 0 {
        Seq::empty()
    } else {
        release_lines(names.drop_last()) + "free(var_"@ + names.last() + ");\n"@
    }
}

/// The line that declares `var_<name>` of type `t` from the value `v`: const
/// unless mutable (owned strings stay assignable), with a C string taking the
/// pointer of an owned string when `decay`.
pub open spec fn scalar_decl_text(t: Ty, name: Seq<char>, v: Seq<char>, is_mutable: bool, decay: bool) -> Seq<char> {
    (if !is_mutable && !(t is Str) {
        "const "@
    } else {
        Seq::empty()
    }) + ctype_ty(t) + " "@ + "var_"@ + name + " = "@ + v + (if decay {
        ".ptr"@
    } else {
        Seq::empty()
    }) + ";\n"@
}

/// Texts one after the other.
pub open spec fn concat_pieces(ps: Seq<Seq<char>>) -> Seq<char>
    decreases ps.len(),
{
    if ps.len() == 0 {
        Seq::empty()
    } else {
        concat_pieces(ps.drop_last()) + ps.last()
    }
}

/// What the lowering of a statement is known to write: `break;`,
/// `continue;` and a bare `return;` are written as they are.
pub open spec fn piece_fits(s: Stmt, piece: Seq<char>) -> bool {
    &&& s is Break ==> piece == "break;\n"@
    &&& s is Continue ==> piece == "continue;\n"@
    &&& (s is Return && s->Return_0 is None) ==> piece == "return;\n"@
}

/// An upper bound on the temporaries, and on the labels, that lowering `s`
/// takes: three for each statement, plus what its parts take.
pub open spec fn stmt_cost(s: Stmt) -> nat
    decreases s,
{
    3 + match s {
        Stmt::TypedDeclaration { value, .. } => expr_cost(value),
        Stmt::Assign(_, v) => expr_cost(v),
        Stmt::CompoundAssign(_, _, v) => expr_cost(v),
        Stmt::Return(v) => match v {
            Some(e) => expr_cost(e),
            None => 0,
        },
        Stmt::If(c, t, e) => expr_cost(c) + block_cost(t@) + match e {
            Some(b) => block_cost(b@),
            None => 0,
        },
        Stmt::While(c, b) => expr_cost(c) + block_cost(b@),
        Stmt::For(_, it, b) => expr_cost(it) + block_cost(b@),
        Stmt::Match(e, cases, d) => expr_cost(e) + cases_cost(cases@) + match d {
            Some(b) => block_cost(b@),
            None => 0,
        },
        Stmt::Call(_, args) => exprs_cost(args@),
        Stmt::Expr(e) => expr_cost(e),
        Stmt::Scope(b) => block_cost(b@),
        Stmt::IndexAssign(a, idx, v) => expr_cost(a) + exprs_cost(idx@) + expr_cost(v),
        Stmt::MemberAssign(o, _, v) => expr_cost(o) + expr_cost(v),
        _ => 0,
    }
}

/// What lowering every statement of `b` takes at most.
pub open spec fn block_cost(b: Seq<Stmt>) -> nat
    decreases b,
{
    if b.len() == 0 {
        0
    } else {
        block_cost(b.drop_last()) + stmt_cost(b.last())
    }
}

/// What lowering every arm of a `match` takes at most.
pub open spec fn cases_cost(c: Seq<MatchCase>) -> nat
    decreases c,
{
    if c.len() == 0 {
        0
    } else {
        cases_cost(c.drop_last()) + expr_cost(c.last().value) + block_cost(c.last().body@)
    }
}

/// The counters moved by at most `cost`.
pub open spec fn within_cost(new: Codegen, old: Codegen, cost: nat) -> bool {
    &&& new.var_count <= old.var_count + cost
    &&& new.label_count <= old.label_count + cost
}

/// A failed statement lowering that takes at most `cost` temporaries and
/// labels either reported a diagnostic or had no room left for them.
pub open spec fn stmt_failed_within(new: Codegen, old: Codegen, cost: nat) -> bool {
    ||| new.diagnostics.reported().len() > old.diagnostics.reported().len()
    ||| old.var_count + cost > usize::MAX
    ||| old.label_count + cost > usize::MAX
}

proof fn lemma_block_cost_prefix(s: Seq<Stmt>, i: int)
    requires
        0 <= i <= s.len(),
    ensures
        block_cost(s.subrange(0, i)) <= block_cost(s),
    decreases s.len(),
{
    if i == s.len() {
        assert(s.subrange(0, i) =~= s);
    } else {
        lemma_block_cost_prefix(s.drop_last(), i);
        assert(s.drop_last().subrange(0, i) =~= s.subrange(0, i));
    }
}

proof fn lemma_cases_cost_prefix(s: Seq<MatchCase>, i: int)
    requires
        0 <= i <= s.len(),
    ensures
        cases_cost(s.subrange(0, i)) <= cases_cost(s),
    decreases s.len(),
{
    if i == s.len() {
        assert(s.subrange(0, i) =~= s);
    } else {
        lemma_cases_cost_prefix(s.drop_last(), i);
        assert(s.drop_last().subrange(0, i) =~= s.subrange(0, i));
    }
}

/// The temporaries that lowering the value of a `return` takes at most.
pub open spec fn return_cost(value: Option<Expr>) -> nat {
    match value {
        Some(e) => expr_cost(e),
        None => 0,
    }
}

/// The views of a list of names.
pub open spec fn name_views(v: Seq<String>) -> Seq<Seq<char>> {
    v.map_values(|s: String| s@)
}

fn emit(body: &mut String, s: &str)
    ensures
        final(body)@ == old(body)@ + s@,
        old(body)@.is_prefix_of(final(body)@),
{
    body.append(s);
    proof {
        lemma_prefix_append(old(body)@, s@);
    }
}

impl Codegen {
    /// Lowering a statement: counters only move forward, variables are only
    /// added, the tables and the function bodies already written stay.
    pub open spec fn stepped_from(&self, before: Self) -> bool {
        &&& self.wf()
        &&& self.var_count >= before.var_count
        &&& self.label_count >= before.label_count
        &&& self.diagnostics.error_count >= before.diagnostics.error_count
        &&& self.arch == before.arch
        &&& self.diagnostics.reported().len() >= before.diagnostics.reported().len()
        &&& before.vars@.is_prefix_of(self.vars@)
        &&& before.owned_vars@.is_prefix_of(self.owned_vars@)
        &&& self.structs == before.structs
        &&& self.impl_methods == before.impl_methods
        &&& self.user_functions == before.user_functions
        &&& self.current_return_type == before.current_return_type
        &&& self.ir.functions == before.ir.functions
        &&& self.source_code == before.source_code
        &&& self.current_file == before.current_file
    }

    /// Lowers a block in braces of its own. Variables declared in it are
    /// forgotten at its end, and each owned variable it declares is released
    /// exactly once, just before the closing brace.
    pub fn codegen_scope(&mut self, stmts: &Vec<Stmt>, body: &mut String) -> (r: Result<(), ()>)
        requires
            old(self).wf(),
        ensures
            within_cost(*final(self), *old(self), block_cost(stmts@)),
            final(self).stepped_from(*old(self)),
            final(self).vars@ == old(self).vars@,
            final(self).owned_vars@ == old(self).owned_vars@,
            final(self).scope_depth == old(self).scope_depth,
            r is Ok,
            exists|pieces: Seq<Seq<char>>|
                pieces.len() == stmts@.len() && (forall|j: int| 0 <= j < pieces.len() ==> #[trigger] piece_fits(stmts@[j], pieces[j]))
                    && final(body)@ == old(body)@ + "{\n"@ + concat_pieces(pieces) + release_lines(owned_decls(stmts@)) + "}\n"@,
        decreases stmts, 0nat,
    {
        let vars_len = self.vars.len();
        let owned_len = self.owned_vars.len();
        let depth = self.scope_depth;
        self.scope_depth = if self.scope_depth < usize::MAX {
            self.scope_depth + 1
        } else {
            self.scope_depth
        };
        emit(body, "{\n");
        let ghost opened = body@;
        let ghost mut pieces: Seq<Seq<char>> = Seq::empty();
        let mut i: usize = 0;
        while i < stmts.len()
            invariant
                i <= stmts.len(),
                pieces.len() == i,
                body@ == opened + concat_pieces(pieces),
                forall|j: int| 0 <= j < i ==> #[trigger] piece_fits(stmts@[j], pieces[j]),
                vars_len == old(self).vars@.len(),
                owned_len == old(self).owned_vars@.len(),
                self.stepped_from(*old(self)),
                opened == old(body)@ + "{\n"@,
                opened.is_prefix_of(body@),
                name_views(self.owned_vars@) == name_views(old(self).owned_vars@) + owned_decls(stmts@.subrange(0, i as int)),
                within_cost(*self, *old(self), block_cost(stmts@.subrange(0, i as int))),
            decreases stmts.len() - i,
        {
            proof {
                assert(stmts@.subrange(0, i + 1).drop_last() =~= stmts@.subrange(0, i as int));
                lemma_block_cost_prefix(stmts@, i + 1);
            }
            let ghost before = body@;
            let ghost owned_before = name_views(self.owned_vars@);
            let _ = self.codegen_stmt(&stmts[i], body);
            proof {
                let piece = body@.subrange(before.len() as int, body@.len() as int);
                assert(body@ =~= before + piece);
                let old_pieces = pieces;
                pieces = pieces.push(piece);
                assert(pieces.drop_last() =~= old_pieces);
                assert(body@ =~= opened + concat_pieces(pieces));
                assert(piece_fits(stmts@[i as int], piece));
                lemma_prefix_trans(opened, before, body@);
                assert(name_views(self.owned_vars@) =~= name_views(old(self).owned_vars@) + owned_decls(stmts@.subrange(0, i + 1)));
            }
            i = i + 1;
        }
        proof {
            assert(stmts@.subrange(0, i as int) =~= stmts@);
        }
        let ghost inner = body@.subrange(opened.len() as int, body@.len() as int);
        proof {
            assert(body@ =~= opened + inner);
            assert(inner =~= concat_pieces(pieces));
        }
        let ghost released_from = body@;
        let mut k: usize = owned_len;
        while k < self.owned_vars.len()
            invariant
                owned_len <= k <= self.owned_vars@.len(),
                owned_len == old(self).owned_vars@.len(),
                name_views(self.owned_vars@) == name_views(old(self).owned_vars@) + owned_decls(stmts@),
                body@ == released_from + release_lines(name_views(self.owned_vars@).subrange(owned_len as int, k as int)),
            decreases self.owned_vars@.len() - k,
        {
            proof {
                let ns = name_views(self.owned_vars@);
                assert(ns.subrange(owned_len as int, k + 1).drop_last() =~= ns.subrange(owned_len as int, k as int));
                assert(ns[k as int] == self.owned_vars@[k as int]@);
            }
            body.append("free(var_");
            body.append(self.owned_vars[k].as_str());
            body.append(");\n");
            k = k + 1;
        }
        proof {
            let ns = name_views(self.owned_vars@);
            assert(ns.subrange(owned_len as int, k as int) =~= owned_decls(stmts@));
        }
        body.append("}\n");
        self.owned_vars.truncate(owned_len);
        self.vars.truncate(vars_len);
        proof {
            assert(self.vars@ =~= old(self).vars@);
            assert(self.owned_vars@ =~= old(self).owned_vars@);
            assert(body@ =~= old(body)@ + "{\n"@ + inner + release_lines(owned_decls(stmts@)) + "}\n"@);
        }
        self.scope_depth = depth;
        Ok(())
    }
}

impl Codegen {
    /// Lowers one statement into `body`.
    pub fn codegen_stmt(&mut self, stmt: &Stmt, body: &mut String) -> (r: Result<(), ()>)
        requires
            old(self).wf(),
        ensures
            within_cost(*final(self), *old(self), stmt_cost(*stmt)),
            r is Err ==> stmt_failed_within(*final(self), *old(self), stmt_cost(*stmt)),
            stmt is TypedDeclaration && !declarable(stmt->TypedDeclaration_ty@) ==> r is Err && final(self).vars@ == old(self).vars@
                && final(self).diagnostics.error_count > 0,
            stmt is TypedDeclaration && !declarable(stmt->TypedDeclaration_ty@) ==> final(self).diagnostics.error_count == (
            if old(self).diagnostics.error_count < usize::MAX {
                old(self).diagnostics.error_count + 1
            } else {
                old(self).diagnostics.error_count as int
            }) && final(self).diagnostics.reported().len() == old(self).diagnostics.reported().len() + 1,
            r is Err ==> final(self).failed_for_cause(*old(self)),
            final(self).stepped_from(*old(self)),
            old(body)@.is_prefix_of(final(body)@),
            name_views(final(self).owned_vars@) == name_views(old(self).owned_vars@) + owned_decl(*stmt),
            piece_fits(*stmt, final(body)@.subrange(old(body)@.len() as int, final(body)@.len() as int)),
        decreases stmt, 1nat,
    {
        proof {
            lemma_prefix_append(body@, Seq::empty());
            assert(body@ + Seq::<char>::empty() =~= body@);
            assert(name_views(self.owned_vars@) + Seq::<Seq<char>>::empty() =~= name_views(self.owned_vars@));
        }
        match stmt {
            Stmt::TypedDeclaration { name, ty, value, is_mutable } => self.codegen_typed_declaration(name, ty, value, *is_mutable, body),
            Stmt::Assign(name, value) => {
                let r = self.codegen_assign(name, value, body);
                r
            },
            Stmt::CompoundAssign(name, op, value) => self.codegen_compound_assign(name, op, value, body),
            Stmt::Return(value) => {
                let r = self.codegen_return(value, body);
                proof {
                    if value is None {
                        assert(body@.subrange(old(body)@.len() as int, body@.len() as int) =~= "return;\n"@);
                    }
                }
                r
            },
            Stmt::If(cond, then_body, else_body) => {
                let (c, _) = self.codegen_expr(cond, body)?;
                let ghost m = body@;
                emit(body, "if (");
                emit(body, c.as_str());
                emit(body, ") ");
                let _ = self.codegen_scope(then_body, body);
                proof { lemma_prefix_trans(old(body)@, m, body@); }
                match else_body {
                    Some(b) => {
                        let ghost m2 = body@;
                        emit(body, "else ");
                        let _ = self.codegen_scope(b, body);
                        proof { lemma_prefix_trans(old(body)@, m2, body@); }
                    },
                    None => {},
                }
                Ok(())
            },
            Stmt::While(cond, loop_body) => {
                let loop_label = self.label()?;
                let end_label = self.label()?;
                emit(body, loop_label.as_str());
                emit(body, ":\n");
                let ghost m = body@;
                let (c, _) = self.codegen_expr(cond, body)?;
                proof { lemma_prefix_trans(old(body)@, m, body@); }
                emit(body, "if (!");
                emit(body, c.as_str());
                emit(body, ") goto ");
                emit(body, end_label.as_str());
                emit(body, ";\n");
                let ghost m2 = body@;
                let _ = self.codegen_scope(loop_body, body);
                proof { lemma_prefix_trans(old(body)@, m2, body@); }
                emit(body, "goto ");
                emit(body, loop_label.as_str());
                emit(body, ";\n");
                emit(body, end_label.as_str());
                emit(body, ":\n");
                Ok(())
            },
            Stmt::For(..) => self.codegen_for(stmt, body),
            Stmt::Match(..) => self.codegen_match(stmt, body),
            Stmt::Call(func, args) => self.codegen_call_stmt(func, args, body),
            Stmt::Expr(e) => {
                let _ = self.codegen_expr(e, body)?;
                Ok(())
            },
            Stmt::Scope(stmts) => {
                let _ = self.codegen_scope(stmts, body);
                Ok(())
            },
            Stmt::IndexAssign(arr, indices, value) => {
                let (a, _) = self.codegen_expr(arr, body)?;
                let mut idx: Vec<String> = Vec::new();
                let mut i: usize = 0;
                while i < indices.len()
                    invariant
                        i <= indices.len(),
                        self.stepped_from(*old(self)),
                        self.owned_vars@ == old(self).owned_vars@,
                        old(body)@.is_prefix_of(body@),
                        stmt is IndexAssign,
                        *indices == stmt->IndexAssign_1,
                        self.var_count <= old(self).var_count + expr_cost(*arr) + exprs_cost(indices@.subrange(0, i as int)),
                        stmt_cost(*stmt) == 3 + expr_cost(*arr) + exprs_cost(indices@) + expr_cost(*value),
                        self.label_count == old(self).label_count,
                    decreases indices.len() - i,
                {
                    let ghost m = body@;
                    proof {
                        assert(indices@.subrange(0, i + 1).drop_last() =~= indices@.subrange(0, i as int));
                        crate::lowering::lemma_exprs_cost_prefix(indices@, i + 1);
                        assert(indices@.subrange(0, i + 1).last() == indices@[i as int]);
                        assert(exprs_cost(indices@.subrange(0, i + 1)) == exprs_cost(indices@.subrange(0, i as int)) + expr_cost(indices@[i as int]));
                    }
                    let (v, _) = self.codegen_expr(&indices[i], body)?;
                    proof { lemma_prefix_trans(old(body)@, m, body@); }
                    idx.push(v);
                    i = i + 1;
                }
                proof {
                    assert(indices@.subrange(0, i as int) =~= indices@);
                }
                let ghost m = body@;
                let (v, _) = self.codegen_expr(value, body)?;
                proof { lemma_prefix_trans(old(body)@, m, body@); }
                emit(body, a.as_str());
                let mut j: usize = 0;
                while j < idx.len()
                    invariant
                        j <= idx.len(),
                        old(body)@.is_prefix_of(body@),
                    decreases idx.len() - j,
                {
                    emit(body, "[");
                    emit(body, idx[j].as_str());
                    emit(body, "]");
                    j = j + 1;
                }
                emit(body, " = ");
                emit(body, v.as_str());
                emit(body, ";\n");
                Ok(())
            },
            Stmt::MemberAssign(obj, field, value) => {
                let (o, o_ty) = self.codegen_expr(obj, body)?;
                let ghost m = body@;
                let (v, _) = self.codegen_expr(value, body)?;
                proof { lemma_prefix_trans(old(body)@, m, body@); }
                emit(body, o.as_str());
                emit(body, if o_ty.is_ptr() {
                    "->"
                } else {
                    "."
                });
                emit(body, field.as_str());
                emit(body, " = ");
                emit(body, v.as_str());
                emit(body, ";\n");
                Ok(())
            },
            Stmt::Break => {
                let r = self.codegen_break(body);
                proof {
                    assert(body@.subrange(old(body)@.len() as int, body@.len() as int) =~= "break;\n"@);
                }
                r
            },
            Stmt::Continue => {
                let r = self.codegen_continue(body);
                proof {
                    assert(body@.subrange(old(body)@.len() as int, body@.len() as int) =~= "continue;\n"@);
                }
                r
            },
        }
    }
}

impl Codegen {
    /// Lowers `let name: ty = value;`. A type that may not hold a value (void,
    /// or with a void element, component or variant) is an error, and then no
    /// variable is recorded. Otherwise the variable is recorded as `var_<name>`,
    /// an owned variable is remembered for release, and the value is lowered
    /// and stored by `declare_value`.
    pub fn codegen_typed_declaration(&mut self, name: &String, ty: &Type, value: &Expr, is_mutable: bool, body: &mut String) -> (r: Result<(), ()>)
        requires
            old(self).wf(),
        ensures
            final(self).label_count == old(self).label_count,
            final(self).var_count <= old(self).var_count + expr_cost(*value),
            r is Err && declarable(ty@) ==> failed_within(*final(self), *old(self), expr_cost(*value)),
            r is Err ==> final(self).failed_for_cause(*old(self)),
            final(self).stepped_from(*old(self)),
            old(body)@.is_prefix_of(final(body)@),
            name_views(final(self).owned_vars@) == name_views(old(self).owned_vars@) + (if declarable(ty@) && ty@ is Owned {
                seq![name@]
            } else {
                Seq::<Seq<char>>::empty()
            }),
            !declarable(ty@) ==> final(self).diagnostics.error_count == (if old(self).diagnostics.error_count < usize::MAX {
                old(self).diagnostics.error_count + 1
            } else {
                old(self).diagnostics.error_count as int
            }),
            !declarable(ty@) ==> r is Err && final(self).vars@ == old(self).vars@ && final(self).diagnostics.error_count > 0
                && final(self).diagnostics.reported().len() == old(self).diagnostics.reported().len() + 1
                && final(body)@ == old(body)@,
            declarable(ty@) ==> final(self).vars@.len() == old(self).vars@.len() + 1
                && final(self).vars@.last().0@ == name@
                && final(self).vars@.last().1.c_name@ == "var_"@ + name@
                && final(self).vars@.last().1.ty@ == ty@,
            r is Ok && !(ty@ is Array || ty@ is MultiArray) ==> exists|pre: Seq<char>, v: Seq<char>, decay: bool|
                old(body)@.is_prefix_of(pre) && (decay ==> ty@ is ConstStr) && final(body)@ == pre + scalar_decl_text(ty@, name@, v, is_mutable, decay),
    {
        if !ty.is_declarable() {
            let ctx = crate::diagnostics::void_variable_error(name.as_str(), self.default_location());
            let msg = join3("Variable '", name.as_str(), "' cannot have void type");
            self.diagnostics.error("VoidVariable", msg.as_str(), ctx);
            proof {
                lemma_prefix_append(body@, Seq::empty());
                assert(body@ + Seq::<char>::empty() =~= body@);
                assert(name_views(self.owned_vars@) =~= name_views(old(self).owned_vars@) + Seq::<Seq<char>>::empty());
                assert(old(self).vars@.is_prefix_of(self.vars@)) by {
                    assert(self.vars@.subrange(0, old(self).vars@.len() as int) =~= old(self).vars@);
                }
                assert(old(self).owned_vars@.is_prefix_of(self.owned_vars@)) by {
                    assert(self.owned_vars@.subrange(0, old(self).owned_vars@.len() as int) =~= old(self).owned_vars@);
                }
            }
            return Err(());
        }
        let ghost owned0 = self.owned_vars@;
        if let Type::Owned(_) = ty {
            self.owned_vars.push(name.clone());
        }
        proof {
            assert(owned0.is_prefix_of(self.owned_vars@)) by {
                assert(self.owned_vars@.subrange(0, owned0.len() as int) =~= owned0);
            }
            if ty@ is Owned {
                assert(name_views(self.owned_vars@) =~= name_views(owned0) + seq![name@]);
            } else {
                assert(name_views(self.owned_vars@) =~= name_views(owned0) + Seq::<Seq<char>>::empty());
            }
        }
        let c_name = join2("var_", name.as_str());
        self.vars.push((name.clone(), VarInfo { c_name: c_name.clone(), ty: ty.duplicate() }));
        proof {
            assert(old(self).vars@.is_prefix_of(self.vars@)) by {
                assert(self.vars@.subrange(0, old(self).vars@.len() as int) =~= old(self).vars@);
            }
        }
        self.ensure_type_defined(ty);
        let ghost m = body@;
        let (val, val_ty) = self.codegen_expr(value, body)?;
        proof { lemma_prefix_trans(old(body)@, m, body@); }
        let ghost m2 = body@;
        self.declare_value(name, ty, &val, &val_ty, is_mutable, body);
        proof { lemma_prefix_trans(old(body)@, m2, body@); }
        Ok(())
    }

    /// Stores the lowered value `val` (of type `val_ty`) into the new variable
    /// `var_<name>` of type `ty`: a sized array or a multi-dimensional array
    /// is copied with `memcpy`, an unsized array is a pointer and a length,
    /// and anything else is one declaration line, where an owned string given
    /// to a C string decays to its pointer.
    pub fn declare_value(&self, name: &String, ty: &Type, val: &String, val_ty: &Type, is_mutable: bool, body: &mut String)
        ensures
            old(body)@.is_prefix_of(final(body)@),
            !(ty@ is Array || ty@ is MultiArray) ==> final(body)@ == old(body)@ + scalar_decl_text(
                ty@,
                name@,
                val@,
                is_mutable,
                ty@ is ConstStr && val_ty@ is Str,
            ),
    {
        let c_name = join2("var_", name.as_str());
        match ty {
            Type::Array { element, size: Some(n) } => {
                emit(body, element.to_c_type(&self.arch).as_str());
                emit(body, " ");
                emit(body, c_name.as_str());
                emit(body, "[");
                emit(body, usize_text(*n).as_str());
                emit(body, "];\nmemcpy(");
                emit(body, c_name.as_str());
                emit(body, ", ");
                emit(body, val.as_str());
                emit(body, ", sizeof(");
                emit(body, c_name.as_str());
                emit(body, "));\n");
            },
            Type::Array { element, size: None } => {
                emit(body, if is_mutable {
                    "struct { "
                } else {
                    "const struct { "
                });
                emit(body, element.to_c_type(&self.arch).as_str());
                emit(body, "* ptr; size_t len; } ");
                emit(body, c_name.as_str());
                emit(body, " = ");
                emit(body, val.as_str());
                emit(body, ";\n");
            },
            Type::MultiArray { element, dimensions } => {
                emit(body, element.to_c_type(&self.arch).as_str());
                emit(body, " ");
                emit(body, c_name.as_str());
                let mut i: usize = 0;
                while i < dimensions.len()
                    invariant
                        i <= dimensions.len(),
                        old(body)@.is_prefix_of(body@),
                    decreases dimensions.len() - i,
                {
                    emit(body, "[");
                    emit(body, usize_text(dimensions[i]).as_str());
                    emit(body, "]");
                    i = i + 1;
                }
                emit(body, ";\nmemcpy(");
                emit(body, c_name.as_str());
                emit(body, ", ");
                emit(body, val.as_str());
                emit(body, ", sizeof(");
                emit(body, c_name.as_str());
                emit(body, "));\n");
            },
            _ => {
                let decay = matches!(ty, Type::ConstStr) && matches!(val_ty, Type::Str { .. });
                self.scalar_decl(ty, name, val, decay, is_mutable, body);
            },
        }
    }

    fn scalar_decl(&self, ty: &Type, name: &String, val: &String, decay: bool, is_mutable: bool, body: &mut String)
        ensures
            final(body)@ == old(body)@ + scalar_decl_text(ty@, name@, val@, is_mutable, decay),
            old(body)@.is_prefix_of(final(body)@),
    {
        let ghost pre = body@;
        if !is_mutable && !matches!(ty, Type::Str { .. }) {
            emit(body, "const ");
        }
        emit(body, ty.to_c_type(&self.arch).as_str());
        emit(body, " ");
        emit(body, "var_");
        emit(body, name.as_str());
        emit(body, " = ");
        emit(body, val.as_str());
        if decay {
            emit(body, ".ptr");
        }
        emit(body, ";\n");
        proof {
            assert(body@ =~= pre + scalar_decl_text(ty@, name@, val@, is_mutable, decay));
            lemma_prefix_append(pre, scalar_decl_text(ty@, name@, val@, is_mutable, decay));
        }
    }

    /// Lowers `name = value;`; an owned string assigned to a C string decays
    /// to its pointer.
    pub fn codegen_assign(&mut self, name: &String, value: &Expr, body: &mut String) -> (r: Result<(), ()>)
        requires
            old(self).wf(),
        ensures
            final(self).label_count == old(self).label_count,
            final(self).var_count <= old(self).var_count + expr_cost(*value),
            r is Err ==> failed_within(*final(self), *old(self), expr_cost(*value)),
            r is Err ==> final(self).failed_for_cause(*old(self)),
            final(self).stepped_from(*old(self)),
            final(self).owned_vars@ == old(self).owned_vars@,
            old(body)@.is_prefix_of(final(body)@),
    {
        let (c_name, var_ty) = self.codegen_var(name)?;
        let ghost m = body@;
        let (val, val_ty) = self.codegen_expr(value, body)?;
        proof { lemma_prefix_trans(old(body)@, m, body@); }
        emit(body, c_name.as_str());
        emit(body, " = ");
        emit(body, val.as_str());
        if matches!(var_ty, Type::ConstStr) && matches!(val_ty, Type::Str { .. }) {
            emit(body, ".ptr");
        }
        emit(body, ";\n");
        Ok(())
    }

    /// Lowers `name op= value;`; `+=` on an owned string concatenates.
    pub fn codegen_compound_assign(&mut self, name: &String, op: &String, value: &Expr, body: &mut String) -> (r: Result<(), ()>)
        requires
            old(self).wf(),
        ensures
            final(self).label_count == old(self).label_count,
            final(self).var_count <= old(self).var_count + expr_cost(*value),
            r is Err ==> failed_within(*final(self), *old(self), expr_cost(*value)),
            r is Err ==> final(self).failed_for_cause(*old(self)),
            final(self).stepped_from(*old(self)),
            final(self).owned_vars@ == old(self).owned_vars@,
            old(body)@.is_prefix_of(final(body)@),
    {
        let (c_name, var_ty) = self.codegen_var(name)?;
        let ghost m = body@;
        let (val, _) = self.codegen_expr(value, body)?;
        proof { lemma_prefix_trans(old(body)@, m, body@); }
        if matches!(var_ty, Type::Str { .. }) && spells(op, "+=") {
            emit(body, c_name.as_str());
            emit(body, " = string_concat(");
            emit(body, c_name.as_str());
            emit(body, ", ");
            emit(body, val.as_str());
            emit(body, ");\n");
        } else {
            emit(body, c_name.as_str());
            emit(body, " ");
            emit(body, op.as_str());
            emit(body, " ");
            emit(body, val.as_str());
            emit(body, ";\n");
        }
        Ok(())
    }

    /// Lowers `return`: with a value unless there is none or it is void.
    pub fn codegen_return(&mut self, value: &Option<Expr>, body: &mut String) -> (r: Result<(), ()>)
        requires
            old(self).wf(),
        ensures
            final(self).label_count == old(self).label_count,
            final(self).var_count <= old(self).var_count + return_cost(*value),
            r is Err ==> failed_within(*final(self), *old(self), return_cost(*value)),
            r is Err ==> final(self).failed_for_cause(*old(self)),
            final(self).stepped_from(*old(self)),
            final(self).owned_vars@ == old(self).owned_vars@,
            old(body)@.is_prefix_of(final(body)@),
            value is None ==> final(body)@ == old(body)@ + "return;\n"@,
    {
        match value {
            Some(e) => {
                let (v, t) = self.codegen_expr(e, body)?;
                if t.is_void() {
                    emit(body, "return;\n");
                } else {
                    emit(body, "return ");
                    emit(body, v.as_str());
                    emit(body, ";\n");
                }
            },
            None => emit(body, "return;\n"),
        }
        Ok(())
    }

    /// Lowers a call made for its effect.
    pub fn codegen_call_stmt(&mut self, func: &String, args: &Vec<Expr>, body: &mut String) -> (r: Result<(), ()>)
        requires
            old(self).wf(),
        ensures
            final(self).label_count == old(self).label_count,
            final(self).var_count <= old(self).var_count + exprs_cost(args@) + 1,
            r is Err ==> failed_within(*final(self), *old(self), exprs_cost(args@) + 1),
            r is Err ==> final(self).failed_for_cause(*old(self)),
            final(self).stepped_from(*old(self)),
            final(self).owned_vars@ == old(self).owned_vars@,
            old(body)@.is_prefix_of(final(body)@),
    {
        let mut vals: Vec<(String, Type)> = Vec::new();
        let mut i: usize = 0;
        while i < args.len()
            invariant
                i <= args.len(),
                self.lowered_from(*old(self)),
                old(body)@.is_prefix_of(body@),
                self.var_count <= old(self).var_count + exprs_cost(args@.subrange(0, i as int)),
            decreases args.len() - i,
        {
            let ghost m = body@;
            proof {
                assert(args@.subrange(0, i + 1).drop_last() =~= args@.subrange(0, i as int));
                crate::lowering::lemma_exprs_cost_prefix(args@, i + 1);
            }
            let v = self.codegen_expr(&args[i], body)?;
            proof { lemma_prefix_trans(old(body)@, m, body@); }
            vals.push(v);
            i = i + 1;
        }
        proof {
            assert(args@.subrange(0, i as int) =~= args@);
        }
        let ghost m = body@;
        let _ = self.call_with(func, args, &vals, body)?;
        proof { lemma_prefix_trans(old(body)@, m, body@); }
        Ok(())
    }

    /// Lowers a `for` loop over an array, a multi-dimensional array (its
    /// first dimension), a result (once when it is a success) or an option
    /// (once when it holds a value).
    #[verifier::rlimit(100)]
    pub fn codegen_for(&mut self, stmt: &Stmt, body: &mut String) -> (r: Result<(), ()>)
        requires
            old(self).wf(),
            stmt is For,
        ensures
            within_cost(*final(self), *old(self), stmt_cost(*stmt)),
            r is Err ==> stmt_failed_within(*final(self), *old(self), stmt_cost(*stmt)),
            r is Err ==> final(self).failed_for_cause(*old(self)),
            final(self).stepped_from(*old(self)),
            final(self).owned_vars@ == old(self).owned_vars@,
            old(body)@.is_prefix_of(final(body)@),
        decreases stmt, 0nat,
    {
        let (var, iter, loop_body) = match stmt {
            Stmt::For(v, i, b) => (v, i, b),
            _ => {
                proof {
                    lemma_prefix_append(body@, Seq::empty());
                    assert(body@ + Seq::<char>::empty() =~= body@);
                }
                return Err(());
            },
        };
        let (it, it_ty) = self.codegen_expr(iter, body)?;
        let loop_label = self.label()?;
        let end_label = self.label()?;
        let idx = self.temp()?;
        let (count, access, elem) = match it_ty {
            Type::Array { element, size: Some(n) } => (usize_text(n), join3(it.as_str(), "[", join2(idx.as_str(), "]").as_str()), *element),
            Type::Array { element, size: None } => (join2(it.as_str(), ".len"), join3(it.as_str(), ".ptr[", join2(idx.as_str(), "]").as_str()), *element),
            Type::MultiArray { element, dimensions } => if dimensions.len() == 0 {
                (text("0"), text("NULL"), *element)
            } else {
                (usize_text(dimensions[0]), join3(it.as_str(), "[", join2(idx.as_str(), "]").as_str()), *element)
            },
            Type::Result { ok, .. } => (join3("(", it.as_str(), ".tag == 0 ? 1 : 0)"), join2(it.as_str(), ".data.ok"), *ok),
            Type::Option { inner } => (join3("(", it.as_str(), ".tag == 1 ? 1 : 0)"), join2(it.as_str(), ".value"), *inner),
            _ => {
                self.fail_iter();
                return Err(());
            },
        };
        let c_name = join2("var_", var.as_str());
        emit(body, "size_t ");
        emit(body, idx.as_str());
        emit(body, " = 0;\n");
        emit(body, loop_label.as_str());
        emit(body, ":\nif (");
        emit(body, idx.as_str());
        emit(body, " >= ");
        emit(body, count.as_str());
        emit(body, ") goto ");
        emit(body, end_label.as_str());
        emit(body, ";\n{\n");
        emit(body, elem.to_c_type(&self.arch).as_str());
        emit(body, " ");
        emit(body, c_name.as_str());
        emit(body, " = ");
        emit(body, access.as_str());
        emit(body, ";\n");
        self.vars.push((var.clone(), VarInfo { c_name, ty: elem }));
        proof {
            assert(old(self).vars@.is_prefix_of(self.vars@)) by {
                assert(self.vars@.subrange(0, old(self).vars@.len() as int) =~= old(self).vars@);
            }
        }
        let ghost m = body@;
        let _ = self.codegen_scope(loop_body, body);
        proof { lemma_prefix_trans(old(body)@, m, body@); }
        emit(body, "}\n");
        emit(body, idx.as_str());
        emit(body, "++;\ngoto ");
        emit(body, loop_label.as_str());
        emit(body, ";\n");
        emit(body, end_label.as_str());
        emit(body, ":\n");
        Ok(())
    }

    fn fail_iter(&mut self)
        requires
            old(self).wf(),
        ensures
            final(self).lowered_from(*old(self)),
            final(self).diagnostics.error_count > 0,
            final(self).diagnostics.reported().len() == old(self).diagnostics.reported().len() + 1,
            final(self).var_count == old(self).var_count,
            final(self).label_count == old(self).label_count,
    {
        let ctx = crate::diagnostics::ErrorContext {
            primary_location: self.default_location(),
            secondary_locations: Vec::new(),
            help_message: Some(text("Expected an array, a multi-dimensional array, a Result or an Option.")),
            suggestions: Vec::new(),
        };
        self.diagnostics.error("E0277", "For loop requires iterable type", ctx);
    }

    /// Lowers a `match`: each arm compares the value with its pattern and
    /// jumps to a shared end label; the default arm comes last.
    pub fn codegen_match(&mut self, stmt: &Stmt, body: &mut String) -> (r: Result<(), ()>)
        requires
            old(self).wf(),
            stmt is Match,
        ensures
            within_cost(*final(self), *old(self), stmt_cost(*stmt)),
            r is Err ==> stmt_failed_within(*final(self), *old(self), stmt_cost(*stmt)),
            r is Err ==> final(self).failed_for_cause(*old(self)),
            final(self).stepped_from(*old(self)),
            final(self).owned_vars@ == old(self).owned_vars@,
            old(body)@.is_prefix_of(final(body)@),
        decreases stmt, 0nat,
    {
        let (expr, cases, default) = match stmt {
            Stmt::Match(e, c, d) => (e, c, d),
            _ => {
                proof {
                    lemma_prefix_append(body@, Seq::empty());
                    assert(body@ + Seq::<char>::empty() =~= body@);
                }
                return Err(());
            },
        };
        let (m, _) = self.codegen_expr(expr, body)?;
        let end_label = self.label()?;
        let mut i: usize = 0;
        while i < cases.len()
            invariant
                i <= cases.len(),
                self.stepped_from(*old(self)),
                self.owned_vars@ == old(self).owned_vars@,
                old(body)@.is_prefix_of(body@),
                stmt is Match,
                *cases == stmt->Match_1,
                self.var_count <= old(self).var_count + expr_cost(*expr) + cases_cost(cases@.subrange(0, i as int)),
                stmt_cost(*stmt) >= 3 + expr_cost(*expr) + cases_cost(cases@),
                self.label_count <= old(self).label_count + 1 + cases_cost(cases@.subrange(0, i as int)),
                old(self).label_count < usize::MAX,
            decreases cases.len() - i,
        {
            let ghost m1 = body@;
            proof {
                assert(cases@.subrange(0, i + 1).drop_last() =~= cases@.subrange(0, i as int));
                lemma_cases_cost_prefix(cases@, i + 1);
                assert(cases@.subrange(0, i + 1).last() == cases@[i as int]);
                assert(cases_cost(cases@.subrange(0, i + 1)) == cases_cost(cases@.subrange(0, i as int)) + expr_cost(cases@[i as int].value)
                    + block_cost(cases@[i as int].body@));
            }
            let (v, _) = self.codegen_expr(&cases[i].value, body)?;
            proof { lemma_prefix_trans(old(body)@, m1, body@); }
            emit(body, "if (");
            emit(body, m.as_str());
            emit(body, " == ");
            emit(body, v.as_str());
            emit(body, ") ");
            let ghost m2 = body@;
            let _ = self.codegen_scope(&cases[i].body, body);
            proof { lemma_prefix_trans(old(body)@, m2, body@); }
            emit(body, "goto ");
            emit(body, end_label.as_str());
            emit(body, ";\n");
            i = i + 1;
        }
        proof {
            assert(cases@.subrange(0, i as int) =~= cases@);
        }
        match default {
            Some(b) => {
                let ghost m3 = body@;
                let _ = self.codegen_scope(b, body);
                proof { lemma_prefix_trans(old(body)@, m3, body@); }
            },
            None => {},
        }
        emit(body, end_label.as_str());
        emit(body, ":\n");
        Ok(())
    }
}

} // verus!
