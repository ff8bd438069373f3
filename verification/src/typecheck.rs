//! Type checking: nominal type identity, bidirectional checking (the context
//! type decides the result of arithmetic on usage types), the `! Error`
//! discipline, the connections of a flow and the exhaustiveness of `match`.
//! Every module is checked in its own namespace.
use crate::ast::{Block, Decl, Expr, FlowStep, RuleKind, UnaryOp, BinOp};
use crate::builtins;
use crate::builtins::{Builtin, StdModule};
use crate::diagnostics::{added_one, codes, keeps, Code, Diagnostics};
use crate::loader::Loaded;
use crate::resolver::{resolve_type_expr, spec_named_type, builtin_type};
use crate::span::Span;
use crate::stdsig;
use crate::text_fmt::{cat2, cat3, cat4, cat5, cat6, join_with, joined, starts_with_underscore, str_eq, str_is, views};
use crate::types::{find, lemma_lookup_has, lookup, Env, ModuleRef, Type, TypeDefKind, TypeId, ENTRY};
use vstd::prelude::*;
use vstd::string::*;

verus! {

/// What a type name denotes.
enum TypeLookup {
    Builtin(Type),
    Id(TypeId),
    NotFound,
}

spec fn lookup_as_type(r: TypeLookup) -> Option<Type> {
    match r {
        TypeLookup::Builtin(t) => Some(t),
        TypeLookup::Id(id) => Some(Type::Named(id)),
        TypeLookup::NotFound => None,
    }
}

/// The value bound to `name` in the innermost scope that binds it.
pub open spec fn scope_lookup(scopes: Seq<Vec<(String, Type)>>, name: Seq<char>) -> Option<Type>
    decreases scopes.len(),
{
    if scopes.len() == 0 {
        None
    } else {
        match lookup(scopes.last()@, name) {
            Some(t) => Some(t),
            None => scope_lookup(scopes.drop_last(), name),
        }
    }
}

/// The constructor a (possibly qualified) name denotes in module `m`.
pub open spec fn spec_ctor_hit(env: &Env, m: int, qualifier: Option<String>, name: Seq<char>) -> Option<(TypeId, usize)> {
    match qualifier {
        None => lookup(env.modules@[m].ctors@, name),
        Some(q) => match lookup(env.modules@[m].aliases@, q@) {
            Some(ModuleRef::User(mid)) => if mid < env.modules@.len() {
                lookup(env.modules@[mid as int].ctors@, name)
            } else {
                None
            },
            _ => None,
        },
    }
}

/// `d` grew by exactly one diagnostic, with code `code`.
pub open spec fn one_more(before: Seq<crate::diagnostics::Diagnostic>, after: Seq<crate::diagnostics::Diagnostic>, code: Code) -> bool {
    &&& keeps(before, after)
    &&& after.len() == before.len() + 1
    &&& after.last().code == code
}

/// The checker of one declaration: its module, its scopes of local values,
/// and whether it may fail.
struct Checker<'a> {
    env: &'a Env,
    /// the module whose code is checked
    module: usize,
    /// the types of the constants checked so far: (module, name, type)
    const_types: &'a Vec<(usize, String, Type)>,
    scopes: Vec<Vec<(String, Type)>>,
    declared_can_fail: bool,
    is_main: bool,
}

impl<'a> Checker<'a> {
    spec fn wf(&self) -> bool {
        self.module < self.env.modules@.len()
    }

    fn alias(&self, q: &str) -> (r: Option<ModuleRef>)
        requires
            self.wf(),
        ensures
            r == lookup(self.env.modules@[self.module as int].aliases@, q@),
    {
        self.env.modules[self.module].alias(q)
    }

    /// A top-level name starting with `_` is not visible outside its module (E301).
    fn require_public(&self, name: &str, span: Span, d: &mut Diagnostics) -> (ok: bool)
        ensures
            ok == !(name@.len() > 0 && name@[0] == '_'),
            final(d).file() == old(d).file(),
            ok ==> final(d).all() == old(d).all(),
            !ok ==> one_more(old(d).all(), final(d).all(), Code::E301),
    {
        if starts_with_underscore(name) {
            d.emit_with_hint(
                codes::RESOLVE_UNDEFINED,
                span,
                cat3("`", name, "` はモジュール外に公開されていません"),
                String::from_str("アンダースコア開始のトップレベル名は非公開です"),
            );
            false
        } else {
            true
        }
    }

    /// Records a use of something that may fail: without `! Error` in the
    /// signature it is an error (E410). `main` is exempt: it passes an error
    /// on to the exit code.
    fn mark_fail(&self, span: Span, what: &str, d: &mut Diagnostics)
        ensures
            final(d).file() == old(d).file(),
            !self.declared_can_fail && !self.is_main ==> one_more(old(d).all(), final(d).all(), Code::E410),
            self.declared_can_fail || self.is_main ==> final(d).all() == old(d).all(),
    {
        if !self.declared_can_fail && !self.is_main {
            d.emit_with_hint(
                codes::TYPE_MISSING_ERROR_MARK,
                span,
                cat2(what, "は失敗する可能性がありますが、`! Error` が宣言されていません"),
                String::from_str("シグネチャに `! Error` を追加してください"),
            );
        }
    }

    /// Checks a type against the type the context expects (E401).
    fn expect_type(&self, actual: &Type, expected: Option<&Type>, span: Span, d: &mut Diagnostics)
        ensures
            final(d).file() == old(d).file(),
            (expected matches Some(t) && *actual != *t) ==> one_more(old(d).all(), final(d).all(), Code::E401),
            !(expected matches Some(t) && *actual != *t) ==> final(d).all() == old(d).all(),
    {
        if let Some(exp) = expected {
            if !actual.same(exp) {
                let e = self.env.display(exp);
                let a = self.env.display(actual);
                d.emit(
                    codes::TYPE_MISMATCH,
                    span,
                    cat4(e.as_str(), " が必要ですが、", a.as_str(), " が渡されました"),
                );
            }
        }
    }

    /// The type of a local value: the innermost scope that binds the name.
    fn lookup_scope(&self, name: &str) -> (r: Option<Type>)
        ensures
            r == scope_lookup(self.scopes@, name@),
    {
        let mut i: usize = self.scopes.len();
        proof {
            assert(self.scopes@.take(i as int) =~= self.scopes@);
        }
        while i > 0
            invariant
                i <= self.scopes@.len(),
                scope_lookup(self.scopes@, name@) == scope_lookup(self.scopes@.take(i as int), name@),
            decreases i,
        {
            let ghost pre = self.scopes@.take(i as int);
            assert(pre.drop_last() =~= self.scopes@.take(i - 1));
            assert(pre.last() == self.scopes@[i - 1]);
            match find(&self.scopes[i - 1], name) {
                Some(j) => {
                    return Some(self.scopes[i - 1][j].1.copy());
                },
                None => {},
            }
            i = i - 1;
        }
        None
    }

    /// Binds a local value in the innermost scope. Values are immutable: a
    /// name bound in the same scope is a reassignment (E407), one bound in an
    /// outer scope would shadow it (E408).
    fn define(&mut self, name: &String, ty: Type, span: Span, d: &mut Diagnostics)
        requires
            old(self).scopes@.len() > 0,
        ensures
            final(self).scopes@.len() == old(self).scopes@.len(),
            final(self).scopes@.drop_last() == old(self).scopes@.drop_last(),
            final(self).env == old(self).env,
            final(self).module == old(self).module,
            final(self).const_types == old(self).const_types,
            final(self).declared_can_fail == old(self).declared_can_fail,
            final(self).is_main == old(self).is_main,
            scope_lookup(final(self).scopes@, name@) == Some(ty),
            final(d).file() == old(d).file(),
            lookup(old(self).scopes@.last()@, name@) is Some ==> one_more(old(d).all(), final(d).all(), Code::E407),
            lookup(old(self).scopes@.last()@, name@) is None && scope_lookup(old(self).scopes@, name@) is Some
                ==> one_more(old(d).all(), final(d).all(), Code::E408),
            scope_lookup(old(self).scopes@, name@) is None ==> final(d).all() == old(d).all(),
    {
        let last = self.scopes.len() - 1;
        let found = find(&self.scopes[last], name.as_str());
        proof {
            assert(self.scopes@.drop_last().push(self.scopes@.last()) =~= self.scopes@);
        }
        if found.is_some() {
            d.emit(
                codes::TYPE_REASSIGNMENT,
                span,
                cat3("値 `", name.as_str(), "` は再代入できません (値は不変です)"),
            );
        } else if self.lookup_scope(name.as_str()).is_some() {
            d.emit(
                codes::TYPE_SHADOWING,
                span,
                cat3("値 `", name.as_str(), "` は外側の束縛を隠せません (シャドーイング禁止)"),
            );
        }
        let ghost before = self.scopes@;
        match found {
            Some(j) => {
                let ghost inner = self.scopes@[last as int]@;
                let entry = (name.clone(), ty);
                self.scopes[last].set(j, entry);
                proof {
                    let l2 = self.scopes@[last as int]@;
                    assert(l2 =~= inner.update(j as int, entry));
                    assert(crate::types::first_match(l2, name@, j as int));
                    crate::types::lemma_lookup_found(l2, name@, j as int);
                    assert(self.scopes@.last() == self.scopes@[last as int]);
                    assert(self.scopes@.drop_last() =~= before.drop_last());
                }
            },
            None => {
                let ghost inner = self.scopes@[last as int]@;
                let entry = (name.clone(), ty);
                proof {
                    crate::types::lemma_lookup_push(inner, entry, name@);
                }
                self.scopes[last].push(entry);
                proof {
                    assert(self.scopes@[last as int]@ == inner.push(entry));
                    assert(self.scopes@.last() == self.scopes@[last as int]);
                    assert(self.scopes@.drop_last() =~= before.drop_last());
                }
            },
        }
    }

    /// What a (possibly qualified) type name denotes in the module.
    fn lookup_type(&self, qualifier: &Option<String>, name: &String) -> (r: TypeLookup)
        requires
            self.wf(),
        ensures
            lookup_as_type(r) == spec_named_type(self.env, self.module as int, *qualifier, name@),
            r matches TypeLookup::Builtin(t) ==> !(t is Named),
    {
        match qualifier {
            None => match builtin_type(name.as_str()) {
                Some(t) => TypeLookup::Builtin(t),
                None => match self.env.modules[self.module].type_id(name.as_str()) {
                    Some(id) => TypeLookup::Id(id),
                    None => TypeLookup::NotFound,
                },
            },
            Some(q) => match self.alias(q.as_str()) {
                Some(ModuleRef::Std(module)) => {
                    if str_eq(name.as_str(), "RangeInput") && builtins::has_range_input(module) {
                        match self.env.std_type("RangeInput") {
                            Some(id) => TypeLookup::Id(id),
                            None => TypeLookup::NotFound,
                        }
                    } else {
                        TypeLookup::NotFound
                    }
                },
                Some(ModuleRef::User(mid)) => {
                    if mid < self.env.modules.len() {
                        match self.env.modules[mid].type_id(name.as_str()) {
                            Some(id) => TypeLookup::Id(id),
                            None => TypeLookup::NotFound,
                        }
                    } else {
                        TypeLookup::NotFound
                    }
                },
                None => TypeLookup::NotFound,
            },
        }
    }

    /// The constructor a (possibly qualified) name denotes.
    fn ctor_hit(&self, qualifier: &Option<String>, name: &String) -> (r: Option<(TypeId, usize)>)
        requires
            self.wf(),
        ensures
            r == spec_ctor_hit(self.env, self.module as int, *qualifier, name@),
    {
        match qualifier {
            None => self.env.modules[self.module].ctor(name.as_str()),
            Some(q) => match self.alias(q.as_str()) {
                Some(ModuleRef::User(mid)) => {
                    if mid < self.env.modules.len() {
                        self.env.modules[mid].ctor(name.as_str())
                    } else {
                        None
                    }
                },
                _ => None,
            },
        }
    }

    /// The type of the constant `name` of module `m`, once it has been checked.
    fn const_type(&self, m: usize, name: &str) -> (r: Option<Type>)
        ensures
            r matches Some(t) ==> exists|i: int|
                0 <= i < self.const_types@.len() && (#[trigger] self.const_types@[i]).0 == m
                    && self.const_types@[i].1@ == name@ && self.const_types@[i].2 == t,
            r is None ==> forall|i: int|
                0 <= i < self.const_types@.len() ==> !((#[trigger] self.const_types@[i]).0 == m
                    && self.const_types@[i].1@ == name@),
    {
        let mut i: usize = 0;
        while i < self.const_types.len()
            invariant
                i <= self.const_types@.len(),
                forall|j: int|
                    0 <= j < i ==> !((#[trigger] self.const_types@[j]).0 == m
                        && self.const_types@[j].1@ == name@),
            decreases self.const_types@.len() - i,
        {
            let entry = &self.const_types[i];
            if entry.0 == m && str_eq(entry.1.as_str(), name) {
                return Some(entry.2.copy());
            }
            i = i + 1;
        }
        None
    }

    /// Checks a call of a std builtin against its signature in std.tcrf; on a
    /// mismatch reports it under `code` and gives `None`.
    fn std_sig_check(&self, b: Builtin, label: &str, arg_types: &[Type], span: Span, code: Code, d: &mut Diagnostics) -> (r: Option<(Type, bool)>)
        ensures
            final(d).file() == old(d).file(),
            r is Some ==> final(d).all() == old(d).all(),
            r is None ==> keeps(old(d).all(), final(d).all()) && final(d).all().len() == old(d).all().len() + 1,
            (forall|i: int| 0 <= i < self.env.std_sigs@.len() ==> (#[trigger] self.env.std_sigs@[i]).name@
                != builtins::spec_sig_name(b)) ==> r is None && final(d).all().last().code == Code::E311,
            r matches Some((t, f)) ==> exists|i: int| 0 <= i < self.env.std_sigs@.len()
                && (#[trigger] self.env.std_sigs@[i]).name@ == builtins::spec_sig_name(b)
                && sig_gives(self.env.std_sigs@[i], b, arg_types@, *self.env, t, f),
            (exists|i: int| 0 <= i < self.env.std_sigs@.len()
                && (#[trigger] self.env.std_sigs@[i]).name@ == builtins::spec_sig_name(b))
                && (forall|i: int| 0 <= i < self.env.std_sigs@.len()
                && (#[trigger] self.env.std_sigs@[i]).name@ == builtins::spec_sig_name(b)
                ==> sig_fits(self.env.std_sigs@[i], b, arg_types@, *self.env)) ==> r is Some,
            r is None && (exists|i: int| 0 <= i < self.env.std_sigs@.len()
                && (#[trigger] self.env.std_sigs@[i]).name@ == builtins::spec_sig_name(b)) ==> final(d).all().last().code == code,
    {
        let sig = match stdsig::find_sig(&self.env.std_sigs, builtins::sig_name(b)) {
            Some(s) => s,
            None => {
                d.emit_with_hint(
                    codes::RESOLVE_STD_DECL,
                    span,
                    cat3("std.tcrf に `", builtins::sig_name(b), "` の宣言がありません"),
                    String::from_str(
                        "処理系付属の lib/std.tcrf が変更されていないか確認してください",
                    ),
                );
                return None;
            },
        };
        match stdsig::check(sig, Some(b), arg_types, self.env) {
            Ok(r) => Some(r),
            Err(msg) => {
                d.emit(code, span, cat4("`", label, "`: ", msg.as_str()));
                None
            },
        }
    }
}

/// A checker is left as it was found: same declaration, same scopes.
spec fn unchanged(a: &Checker, b: &Checker) -> bool {
    &&& a.env == b.env
    &&& a.module == b.module
    &&& a.const_types == b.const_types
    &&& a.declared_can_fail == b.declared_can_fail
    &&& a.is_main == b.is_main
    &&& a.scopes@ == b.scopes@
}

/// A call of a rule of module `m` that must be reported with `code` when it
/// is checked in a declaration whose `! Error` mark is `declared`: E401 for
/// other than one argument, E410 for a rule that can fail called where
/// failure is not declared (and not in `main`).
pub open spec fn call_fault(env: &Env, m: int, e: Expr, declared: bool, is_main: bool, code: Code) -> bool {
    &&& e matches Expr::Call { path, args, .. }
    &&& path@.len() == 1
    &&& 0 <= m < env.modules@.len()
    &&& lookup(env.modules@[m].rules@, path@[0].0@) matches Some(info)
    &&& (code == Code::E401 && args@.len() != 1) || (code == Code::E410 && info.can_fail && !declared && !is_main)
}

/// The body of rule `decl` is one call with a fault that must be reported
/// with `code` (see `call_fault`).
pub open spec fn rule_call_fault(env: &Env, m: int, decl: crate::ast::RuleDecl, declared: bool, is_main: bool, code: Code) -> bool {
    match decl.kind {
        RuleKind::Normal { body, .. } => body.bindings@.len() == 0 && call_fault(env, m, body.result, declared, is_main, code),
        _ => false,
    }
}

/// The body of rule `decl`, whose input type is `input`, is one `match` on
/// its parameter, of an algebraic type, that misses constructors.
pub open spec fn rule_match_fault(env: &Env, decl: crate::ast::RuleDecl, input: Type) -> bool {
    &&& decl.kind matches RuleKind::Normal { body, .. }
    &&& body.bindings@.len() == 0
    &&& decl.params@.len() > 0
    &&& body.result matches Expr::Match { scrutinee, arms, .. }
    &&& *scrutinee matches Expr::Name { path, .. }
    &&& path@.len() == 1
    &&& path@[0].0@ == decl.params@[0].0@
    &&& input matches Type::Named(id)
    &&& id < env.types@.len()
    &&& env.types@[id as int].kind matches TypeDefKind::Adt(cs)
    &&& missing_names(cs@, arms@).len() > 0
}

/// Declaration `i` of module `m` is a rule whose body is a `match` on its
/// parameter that misses constructors (see `rule_match_fault`).
pub open spec fn body_match_fault(loaded: &Loaded, env: &Env, m: int, i: int) -> bool {
    &&& 0 <= m < env.modules@.len()
    &&& m < loaded.units@.len()
    &&& 0 <= i < loaded.units@[m].program.decls@.len()
    &&& loaded.units@[m].program.decls@[i] matches Decl::Rule(r)
    &&& lookup(env.modules@[m].rules@, r.name@) matches Some(info)
    &&& info.decl == i
    &&& rule_match_fault(env, r, info.input)
}

/// A `match` on a local value of an algebraic type that misses
/// constructors, checked in `scopes`.
pub open spec fn match_fault(env: &Env, scopes: Seq<Vec<(String, Type)>>, e: Expr) -> bool {
    &&& e matches Expr::Match { scrutinee, arms, .. }
    &&& scrutinee_ctors(env, scopes, *scrutinee) matches Some(cs)
    &&& missing_names(cs, arms@).len() > 0
}

/// Declaration `i` of module `m` is a rule whose body is one call with a
/// fault that must be reported with `code` (see `call_fault`).
pub open spec fn body_call_fault(loaded: &Loaded, env: &Env, m: int, i: int, code: Code) -> bool {
    &&& 0 <= m < env.modules@.len()
    &&& m < loaded.units@.len()
    &&& 0 <= i < loaded.units@[m].program.decls@.len()
    &&& loaded.units@[m].program.decls@[i] matches Decl::Rule(r)
    &&& lookup(env.modules@[m].rules@, r.name@) matches Some(info)
    &&& info.decl == i
    &&& rule_call_fault(env, m, r, info.can_fail, false, code)
}

/// A code found among the diagnostics from `from` on stays found as
/// diagnostics are added.
proof fn lemma_has_code_kept(a: Seq<crate::diagnostics::Diagnostic>, b: Seq<crate::diagnostics::Diagnostic>, from: int, code: Code)
    requires
        0 <= from,
        has_code(a, from, code),
        keeps(a, b),
    ensures
        has_code(b, from, code),
{
    let w = choose|w: int| from <= w < a.len() && (#[trigger] a[w]).code == code;
    assert(b[w] == a[w]);
}

/// The type of an operand whose type the checker knows without a
/// diagnostic: a literal, or a one-segment local value of a builtin scalar
/// type.
pub open spec fn operand_type(scopes: Seq<Vec<(String, Type)>>, e: Expr) -> Option<Type> {
    match literal_type(e) {
        Some(t) => Some(t),
        None => match e {
            Expr::Name { path, .. } => if path@.len() == 1 {
                match scope_lookup(scopes, path@[0].0@) {
                    Some(t) => if t is Int || t is Decimal || t is Text || t is Char || t is Bool || t is Void {
                        Some(t)
                    } else {
                        None
                    },
                    None => None,
                }
            } else {
                None
            },
            _ => None,
        },
    }
}

/// The type of a match arm whose body is a bare literal.
pub open spec fn arm_literal(a: crate::ast::MatchArm) -> Option<Type> {
    if a.body.bindings@.len() == 0 {
        literal_type(a.body.result)
    } else {
        None
    }
}

/// The first arm and one of the arms after it, before `upto`, are bare
/// literals of different types.
pub open spec fn arms_disagree(arms: Seq<crate::ast::MatchArm>, upto: int) -> bool {
    &&& arms.len() > 0
    &&& arm_literal(arms[0]) is Some
    &&& exists|j: int| 1 <= j < upto && j < arms.len() && (#[trigger] arm_literal(arms[j])) is Some
        && arm_literal(arms[j]) != arm_literal(arms[0])
}

/// The type of a literal expression.
pub open spec fn literal_type(e: Expr) -> Option<Type> {
    match e {
        Expr::IntLit(..) => Some(Type::Int),
        Expr::DecimalLit(..) => Some(Type::Decimal),
        Expr::TextLit(..) => Some(Type::Text),
        Expr::CharLit(..) => Some(Type::Char),
        Expr::BoolLit(..) => Some(Type::Bool),
        Expr::VoidLit(..) => Some(Type::Void),
        _ => None,
    }
}

/// When the context expects a type and nothing was reported, the expression has that type.
pub open spec fn checks_to(expected: Option<&Type>, t: Type, before: Seq<crate::diagnostics::Diagnostic>, after: Seq<crate::diagnostics::Diagnostic>) -> bool {
    expected matches Some(x) ==> (after.len() == before.len() ==> t == *x)
}

/// The constructors of the ADT that a one-segment local name of type `id` has.
pub open spec fn scrutinee_ctors(env: &Env, scopes: Seq<Vec<(String, Type)>>, s: Expr) -> Option<Seq<crate::types::CtorDef>> {
    match s {
        Expr::Name { path, .. } => if path@.len() == 1 {
            match scope_lookup(scopes, path@[0].0@) {
                Some(Type::Named(id)) => if id < env.types@.len() {
                    match env.types@[id as int].kind {
                        TypeDefKind::Adt(cs) => Some(cs@),
                        _ => None,
                    }
                } else {
                    None
                },
                _ => None,
            }
        } else {
            None
        },
        _ => None,
    }
}

/// Some name of `seen` reads `x`.
pub open spec fn seen_has(seen: Seq<String>, x: Seq<char>) -> bool {
    exists|i: int| 0 <= i < seen.len() && (#[trigger] seen[i])@ == x
}

/// Where `r` names the constructors `cs` (by position) and `seen` holds
/// exactly the constructor names that arms name, the constructors `seen`
/// leaves out are the ones no arm names.
proof fn lemma_unseen_missing(r: Seq<(String, Option<Type>)>, cs: Seq<crate::types::CtorDef>, seen: Seq<String>,
    arms: Seq<crate::ast::MatchArm>)
    requires
        r.len() == cs.len(),
        forall|i: int| 0 <= i < r.len() ==> (#[trigger] r[i]).0@ == cs[i].name@,
        forall|x: Seq<char>| #[trigger] seen_has(seen, x) <==> (exists|j: int| 0 <= j < arms.len()
            && (#[trigger] arms[j]).ctor@ == x && lookup(r, x) is Some),
    ensures
        unseen(r, seen) == missing_names(cs, arms),
{
    unseen_missing_names_agree(r, cs, seen, arms, r);
}

/// `unseen` and `missing_names` agree on a prefix `p` of the constructor list `r`.
proof fn unseen_missing_names_agree(p: Seq<(String, Option<Type>)>, cs: Seq<crate::types::CtorDef>, seen: Seq<String>,
    arms: Seq<crate::ast::MatchArm>, r: Seq<(String, Option<Type>)>)
    requires
        p.len() == cs.len(),
        p.len() <= r.len(),
        forall|i: int| 0 <= i < p.len() ==> (#[trigger] p[i]) == r[i],
        forall|i: int| 0 <= i < p.len() ==> (#[trigger] p[i]).0@ == cs[i].name@,
        forall|x: Seq<char>| #[trigger] seen_has(seen, x) <==> (exists|j: int| 0 <= j < arms.len()
            && (#[trigger] arms[j]).ctor@ == x && lookup(r, x) is Some),
    ensures
        unseen(p, seen) == missing_names(cs, arms),
    decreases p.len(),
{
    if p.len() > 0 {
        let x = p.last().0@;
        lemma_lookup_has(r, p.len() - 1);
        assert(seen_has(seen, x) <==> arm_names(arms, x)) by {
            if arm_names(arms, x) {
                let j = choose|j: int| 0 <= j < arms.len() && (#[trigger] arms[j]).ctor@ == x;
                assert(arms[j].ctor@ == x && lookup(r, x) is Some);
            }
        }
        assert((exists|i: int| 0 <= i < seen.len() && (#[trigger] seen[i])@ == p.last().0@) == seen_has(seen, x));
        unseen_missing_names_agree(p.drop_last(), cs.drop_last(), seen, arms, r);
    }
}

/// The constructors of the algebraic type `t`, if it is one.
pub open spec fn adt_ctors(env: Env, t: Type) -> Option<Seq<crate::types::CtorDef>> {
    match t {
        Type::Named(id) => if id < env.types@.len() {
            match env.types@[id as int].kind {
                TypeDefKind::Adt(cs) => Some(cs@),
                _ => None,
            }
        } else {
            None
        },
        _ => None,
    }
}

/// Some arm of the flow-level match names `x`.
pub open spec fn flow_arm_names(arms: Seq<crate::ast::FlowMatchArm>, x: Seq<char>) -> bool {
    exists|j: int| 0 <= j < arms.len() && (#[trigger] arms[j]).ctor@ == x
}

/// The names of the constructors of `cs` that no arm of the flow-level
/// match names, in order.
pub open spec fn flow_missing_names(cs: Seq<crate::types::CtorDef>, arms: Seq<crate::ast::FlowMatchArm>) -> Seq<Seq<char>>
    decreases cs.len(),
{
    if cs.len() == 0 {
        Seq::empty()
    } else {
        let rest = flow_missing_names(cs.drop_last(), arms);
        if flow_arm_names(arms, cs.last().name@) {
            rest
        } else {
            rest.push(cs.last().name@)
        }
    }
}

/// A name is among the missing ones of a flow-level match exactly when it
/// names a constructor of the type and no arm names it.
pub proof fn law_flow_missing_names(cs: Seq<crate::types::CtorDef>, arms: Seq<crate::ast::FlowMatchArm>, x: Seq<char>)
    ensures
        flow_missing_names(cs, arms).contains(x) <==> (exists|i: int| 0 <= i < cs.len() && (#[trigger] cs[i]).name@ == x)
            && !flow_arm_names(arms, x),
    decreases cs.len(),
{
    if cs.len() > 0 {
        law_flow_missing_names(cs.drop_last(), arms, x);
        let rest = flow_missing_names(cs.drop_last(), arms);
        if exists|i: int| 0 <= i < cs.drop_last().len() && (#[trigger] cs.drop_last()[i]).name@ == x {
            let i = choose|i: int| 0 <= i < cs.drop_last().len() && (#[trigger] cs.drop_last()[i]).name@ == x;
            assert(cs[i].name@ == x);
        }
        if exists|i: int| 0 <= i < cs.len() && (#[trigger] cs[i]).name@ == x {
            let i = choose|i: int| 0 <= i < cs.len() && (#[trigger] cs[i]).name@ == x;
            if i < cs.len() - 1 {
                assert(cs.drop_last()[i].name@ == x);
            }
        }
        if !flow_arm_names(arms, cs.last().name@) {
            assert(rest.push(cs.last().name@)[rest.len() as int] == cs.last().name@);
            if rest.contains(x) {
                let k = choose|k: int| 0 <= k < rest.len() && rest[k] == x;
                assert(rest.push(cs.last().name@)[k] == x);
            }
            if rest.push(cs.last().name@).contains(x) && x != cs.last().name@ {
                let k = choose|k: int| 0 <= k < rest.len() + 1 && rest.push(cs.last().name@)[k] == x;
                assert(rest[k] == x);
            }
        }
    }
}

/// `unseen` and `flow_missing_names` agree on a prefix `p` of the
/// constructor list `r`.
proof fn unseen_flow_missing_agree(p: Seq<(String, Option<Type>)>, cs: Seq<crate::types::CtorDef>, seen: Seq<String>,
    arms: Seq<crate::ast::FlowMatchArm>, r: Seq<(String, Option<Type>)>)
    requires
        p.len() == cs.len(),
        p.len() <= r.len(),
        forall|i: int| 0 <= i < p.len() ==> (#[trigger] p[i]) == r[i],
        forall|i: int| 0 <= i < p.len() ==> (#[trigger] p[i]).0@ == cs[i].name@,
        forall|x: Seq<char>| #[trigger] seen_has(seen, x) <==> (exists|j: int| 0 <= j < arms.len()
            && (#[trigger] arms[j]).ctor@ == x && lookup(r, x) is Some),
    ensures
        unseen(p, seen) == flow_missing_names(cs, arms),
    decreases p.len(),
{
    if p.len() > 0 {
        let x = p.last().0@;
        lemma_lookup_has(r, p.len() - 1);
        assert(seen_has(seen, x) <==> flow_arm_names(arms, x)) by {
            if flow_arm_names(arms, x) {
                let j = choose|j: int| 0 <= j < arms.len() && (#[trigger] arms[j]).ctor@ == x;
                assert(arms[j].ctor@ == x && lookup(r, x) is Some);
            }
        }
        assert((exists|i: int| 0 <= i < seen.len() && (#[trigger] seen[i])@ == p.last().0@) == seen_has(seen, x));
        unseen_flow_missing_agree(p.drop_last(), cs.drop_last(), seen, arms, r);
    }
}

/// Some arm of the match names `x`.
pub open spec fn arm_names(arms: Seq<crate::ast::MatchArm>, x: Seq<char>) -> bool {
    exists|j: int| 0 <= j < arms.len() && (#[trigger] arms[j]).ctor@ == x
}

/// The names of the constructors of `cs` that no arm names, in order.
pub open spec fn missing_names(cs: Seq<crate::types::CtorDef>, arms: Seq<crate::ast::MatchArm>) -> Seq<Seq<char>>
    decreases cs.len(),
{
    if cs.len() == 0 {
        Seq::empty()
    } else {
        let rest = missing_names(cs.drop_last(), arms);
        if arm_names(arms, cs.last().name@) {
            rest
        } else {
            rest.push(cs.last().name@)
        }
    }
}

/// Some diagnostic from position `from` on carries `code`.
pub open spec fn has_code(d: Seq<crate::diagnostics::Diagnostic>, from: int, code: Code) -> bool {
    exists|k: int| from <= k < d.len() && (#[trigger] d[k]).code == code
}

/// Operator `op` applies to builtin operand types `lt` and `rt`: both the same,
/// equatable for `==`/`!=`, ordered for comparisons, numeric for arithmetic
/// (and `%` not on Decimal).
pub open spec fn op_fits(op: BinOp, lt: Type, rt: Type) -> bool {
    lt == rt && match op {
        BinOp::Eq | BinOp::Ne => lt.spec_is_equatable_scalar(),
        BinOp::Lt | BinOp::Le | BinOp::Gt | BinOp::Ge => lt.spec_is_ordered_scalar(),
        BinOp::Rem => lt is Int,
        _ => lt.spec_is_numeric(),
    }
}

/// The constructors of an ADT: names and payload types.
fn copy_ctors(cs: &Vec<crate::types::CtorDef>) -> (r: Vec<(String, Option<Type>)>)
    ensures
        r@.len() == cs@.len(),
        forall|i: int| 0 <= i < cs@.len() ==> (#[trigger] r@[i]).0@ == cs@[i].name@ && r@[i].1 == cs@[i].payload,
{
    let mut r: Vec<(String, Option<Type>)> = Vec::new();
    let mut i: usize = 0;
    while i < cs.len()
        invariant
            i <= cs@.len(),
            r@.len() == i,
            forall|j: int| 0 <= j < i ==> (#[trigger] r@[j]).0@ == cs@[j].name@ && r@[j].1 == cs@[j].payload,
        decreases cs@.len() - i,
    {
        let p = match &cs[i].payload {
            Some(t) => Some(t.copy()),
            None => None,
        };
        r.push((cs[i].name.clone(), p));
        i = i + 1;
    }
    r
}

/// Is `name` one of `names`.
fn has_name(names: &Vec<String>, name: &str) -> (b: bool)
    ensures
        b == exists|i: int| 0 <= i < names@.len() && (#[trigger] names@[i])@ == name@,
{
    let mut i: usize = 0;
    while i < names.len()
        invariant
            i <= names@.len(),
            forall|j: int| 0 <= j < i ==> (#[trigger] names@[j])@ != name@,
        decreases names@.len() - i,
    {
        if str_eq(names[i].as_str(), name) {
            return true;
        }
        i = i + 1;
    }
    false
}

/// The names of the constructors of `ctors` that `seen` does not name, in order.
pub open spec fn unseen(ctors: Seq<(String, Option<Type>)>, seen: Seq<String>) -> Seq<Seq<char>>
    decreases ctors.len(),
{
    if ctors.len() == 0 {
        Seq::empty()
    } else {
        let rest = unseen(ctors.drop_last(), seen);
        if exists|i: int| 0 <= i < seen.len() && (#[trigger] seen[i])@ == ctors.last().0@ {
            rest
        } else {
            rest.push(ctors.last().0@)
        }
    }
}

/// The type of the first field called `name` among `fields`.
pub open spec fn first_field(fields: Seq<crate::types::FieldDef>, name: Seq<char>) -> Option<Type>
    decreases fields.len(),
{
    if fields.len() == 0 {
        None
    } else if fields[0].name@ == name {
        Some(fields[0].ty)
    } else {
        first_field(fields.drop_first(), name)
    }
}

/// The declared signature `sig` takes `args` (for builtin `b`) and gives `t`,
/// failing or not as `f` says.
pub open spec fn sig_gives(sig: stdsig::StdSig, b: Builtin, args: Seq<Type>, env: Env, t: Type, f: bool) -> bool {
    f == sig.can_fail && exists|sigma: Seq<(String, Type)>|
        #[trigger] stdsig::solves(&sig, args, &env, sigma) && stdsig::equality_ok(Some(b), &sig, sigma, &env)
            && stdsig::subst(sig.output, sigma, &env) == Some(t)
}

/// The declared signature `sig` takes `args` (for builtin `b`).
pub open spec fn sig_fits(sig: stdsig::StdSig, b: Builtin, args: Seq<Type>, env: Env) -> bool {
    exists|sigma: Seq<(String, Type)>|
        #[trigger] stdsig::solves(&sig, args, &env, sigma) && stdsig::equality_ok(Some(b), &sig, sigma, &env)
            && stdsig::subst(sig.output, sigma, &env) is Some
}

/// The output type of a flow step that calls a rule or flow of module `menv` by a plain name.
pub open spec fn call_output(menv: crate::types::ModuleEnv, step: FlowStep) -> Option<Type> {
    match step {
        FlowStep::Call { path, .. } => if path@.len() == 1 {
            match lookup(menv.rules@, path@[0].0@) {
                Some(info) => Some(info.output),
                None => match lookup(menv.flows@, path@[0].0@) {
                    Some(info) => Some(info.output),
                    None => None,
                },
            }
        } else {
            None
        },
        _ => None,
    }
}

/// Is `t` an algebraic data type of `env`.
pub open spec fn is_adt_type(env: Env, t: Type) -> bool {
    t matches Type::Named(id) && id < env.types@.len() && env.types@[id as int].kind is Adt
}

/// The qualifier and name of a construction by a type or constructor name.
pub open spec fn construct_names(e: Expr) -> Option<(Option<String>, String)> {
    match e {
        Expr::Construct { qualifier, name, .. } => Some((qualifier, name)),
        Expr::ListConstruct { qualifier, name, .. } => Some((qualifier, name)),
        _ => None,
    }
}

/// The type a construction by `name` builds: the type of the constructor it
/// names, else the type it names.
pub open spec fn built_type(env: &Env, m: int, qualifier: Option<String>, name: Seq<char>) -> Option<Type> {
    match spec_ctor_hit(env, m, qualifier, name) {
        Some((tid, _)) => Some(Type::Named(tid)),
        None => spec_named_type(env, m, qualifier, name),
    }
}

/// The type of field `name` of `t`, where `t` is a record type with such a field.
pub open spec fn field_type_of(env: Env, t: Type, name: Seq<char>) -> Option<Type> {
    match t {
        Type::Named(id) => if id < env.types@.len() {
            match env.types@[id as int].kind {
                TypeDefKind::Record(fields) => first_field(fields@, name),
                _ => None,
            }
        } else {
            None
        },
        _ => None,
    }
}

/// The type reached from `t` through the field names of `path` from `k` on,
/// where every step names a field of a record type.
pub open spec fn walk_path(env: Env, t: Type, path: Seq<(String, Span)>, k: int) -> Option<Type>
    decreases path.len() - k,
{
    if k < 0 || k >= path.len() {
        Some(t)
    } else {
        match field_type_of(env, t, path[k].0@) {
            Some(ft) => walk_path(env, ft, path, k + 1),
            None => None,
        }
    }
}

/// The constructors of `ctors` not in `seen`, joined with ", ".
fn missing_ctors(ctors: &Vec<(String, Option<Type>)>, seen: &Vec<String>) -> (r: Option<String>)
    ensures
        unseen(ctors@, seen@).len() == 0 ==> r is None,
        unseen(ctors@, seen@).len() > 0 ==> (r matches Some(s) && s@ == joined(unseen(ctors@, seen@), ", "@)),
{
    let mut missing: Vec<String> = Vec::new();
    let mut i: usize = 0;
    while i < ctors.len()
        invariant
            i <= ctors@.len(),
            views(missing@) == unseen(ctors@.take(i as int), seen@),
        decreases ctors@.len() - i,
    {
        proof {
            assert(ctors@.take(i + 1).drop_last() =~= ctors@.take(i as int));
        }
        if !has_name(seen, ctors[i].0.as_str()) {
            missing.push(ctors[i].0.clone());
            proof {
                assert(views(missing@) =~= unseen(ctors@.take(i + 1), seen@));
            }
        }
        i = i + 1;
    }
    proof {
        assert(ctors@.take(ctors@.len() as int) =~= ctors@);
    }
    if missing.len() == 0 {
        None
    } else {
        Some(join_with(&missing, ", "))
    }
}

impl<'a> Checker<'a> {
    /// Checks a block: its bindings in a new scope, then its final expression.
    #[verifier::loop_isolation(false)]
    fn check_block(&mut self, block: &Block, expected: Option<&Type>, d: &mut Diagnostics) -> (t: Type)
        requires
            old(self).wf(),
        ensures
            unchanged(old(self), final(self)),
            final(d).file() == old(d).file(),
            keeps(old(d).all(), final(d).all()),
            checks_to(expected, t, old(d).all(), final(d).all()),
            block.bindings@.len() == 0 && literal_type(block.result) is Some ==> t == literal_type(block.result)->0,
            forall|c: Code|
                block.bindings@.len() == 0 && #[trigger] call_fault(
                    old(self).env,
                    old(self).module as int,
                    block.result,
                    old(self).declared_can_fail,
                    old(self).is_main,
                    c,
                ) ==> has_code(final(d).all(), old(d).all().len() as int, c),
            block.bindings@.len() == 0 && match_fault(old(self).env, old(self).scopes@, block.result) ==> has_code(
                final(d).all(),
                old(d).all().len() as int,
                Code::E404,
            ),
        decreases block, 3int,
    {
        let ghost orig = self.scopes@;
        self.scopes.push(Vec::new());
        proof {
            assert forall|x: Seq<char>| #[trigger] scope_lookup(self.scopes@, x) == scope_lookup(orig, x) by {
                assert(self.scopes@.drop_last() =~= orig);
                assert(self.scopes@.last()@ =~= Seq::<(String, Type)>::empty());
                assert(lookup(self.scopes@.last()@, x) is None);
            }
            if block.result is Match {
                assert(scrutinee_ctors(self.env, self.scopes@, *block.result->scrutinee) == scrutinee_ctors(self.env, orig, *block.result->scrutinee));
            }
        }
        let ghost pushed = self.scopes@;
        let mut k: usize = 0;
        while k < block.bindings.len()
            invariant
                self.wf(),
                self.env == old(self).env,
                self.module == old(self).module,
                self.const_types == old(self).const_types,
                self.declared_can_fail == old(self).declared_can_fail,
                self.is_main == old(self).is_main,
                k == 0 ==> self.scopes@ == pushed,
                k <= block.bindings@.len(),
                self.scopes@.len() == orig.len() + 1,
                self.scopes@.drop_last() == orig,
                orig == old(self).scopes@,
                d.file() == old(d).file(),
                keeps(old(d).all(), d.all()),
            decreases block.bindings@.len() - k,
        {
            let b = &block.bindings[k];
            proof {
                assert(decreases_to!(block.bindings => block.bindings@));
                assert(decreases_to!(block.bindings@ => block.bindings@[k as int]));
            }
            let ann: Option<Type> = match &b.ty {
                Some(te) => Some(resolve_type_expr(self.env, self.module, te, d)),
                None => None,
            };
            let vt = match &ann {
                Some(a) => self.check_expr(&b.value, Some(a), d),
                None => self.check_expr(&b.value, None, d),
            };
            let bound = match ann {
                Some(a) => a,
                None => vt,
            };
            self.define(&b.name, bound, b.name_span, d);
            k = k + 1;
        }
        proof {
            if block.bindings@.len() == 0 && match_fault(old(self).env, orig, block.result) {
                assert(self.scopes@ == pushed);
                assert(match_fault(self.env, self.scopes@, block.result));
            }
        }
        let result = self.check_expr(&block.result, expected, d);
        let ghost full = self.scopes@;
        self.scopes.pop();
        proof {
            assert(self.scopes@ =~= full.drop_last());
        }
        result
    }

    /// Checks an expression against the type the context expects, if any.
    #[verifier::loop_isolation(false)]
    fn check_expr(&mut self, e: &Expr, expected: Option<&Type>, d: &mut Diagnostics) -> (t: Type)
        requires
            old(self).wf(),
        ensures
            unchanged(old(self), final(self)),
            final(d).file() == old(d).file(),
            keeps(old(d).all(), final(d).all()),
            checks_to(expected, t, old(d).all(), final(d).all()),
            literal_type(*e) matches Some(lt) ==> t == lt && match expected {
                Some(x) => if *x != lt {
                    one_more(old(d).all(), final(d).all(), Code::E401)
                } else {
                    final(d).all() == old(d).all()
                },
                None => final(d).all() == old(d).all(),
            },
            e matches Expr::Name { path, .. } ==> (path@.len() == 1 && expected is None
                ==> (scope_lookup(old(self).scopes@, path@[0].0@) matches Some(lt) ==> t == lt && final(d).all() == old(d).all())),
            e matches Expr::Binary { op, .. } ==> (!op.is_arith() ==> t == Type::Bool),
            forall|c: Code|
                #[trigger] call_fault(old(self).env, old(self).module as int, *e, old(self).declared_can_fail, old(self).is_main, c)
                    ==> has_code(final(d).all(), old(d).all().len() as int, c),
            match_fault(old(self).env, old(self).scopes@, *e) ==> has_code(final(d).all(), old(d).all().len() as int, Code::E404),
            *e is At && !old(self).declared_can_fail && !old(self).is_main ==> has_code(
                final(d).all(),
                old(d).all().len() as int,
                Code::E410,
            ),
            e matches Expr::Binary { op, left, right, .. } ==> (!(op is And || op is Or)
                && operand_type(old(self).scopes@, **left) is Some && operand_type(old(self).scopes@, **right) is Some ==> {
                let lt = operand_type(old(self).scopes@, **left)->0;
                let rt = operand_type(old(self).scopes@, **right)->0;
                &&& (has_code(final(d).all(), old(d).all().len() as int, Code::E411) <==> !op_fits(*op, lt, rt))
                &&& (op.is_arith() ==> t == lt)
            }),
        decreases e, 4int,
    {
        let actual = match e {
            Expr::IntLit(..) => Type::Int,
            Expr::DecimalLit(..) => Type::Decimal,
            Expr::TextLit(..) => Type::Text,
            Expr::CharLit(..) => Type::Char,
            Expr::BoolLit(..) => Type::Bool,
            Expr::VoidLit(..) => Type::Void,
            Expr::Name { path, span } => self.check_name(path, *span, d),
            Expr::Call { .. } => {
                let ghost d0 = d.all();
                let t = self.check_call(e, d);
                proof {
                    let dc = d.all();
                    if call_fault(old(self).env, old(self).module as int, *e, old(self).declared_can_fail, old(self).is_main, Code::E410) {
                        assert(dc[dc.len() - 1].code == Code::E410);
                        assert(has_code(dc, d0.len() as int, Code::E410));
                    }
                }
                t
            },
            Expr::At { list, index, span } => {
                let lt = self.check_expr(&**list, None, d);
                self.check_expr(&**index, Some(&Type::Int), d);
                let ghost dm = d.all();
                self.mark_fail(*span, "`at` ", d);
                proof {
                    if !old(self).declared_can_fail && !old(self).is_main {
                        assert(d.all()[dm.len() as int].code == Code::E410);
                        assert(has_code(d.all(), old(d).all().len() as int, Code::E410));
                    }
                }
                let ghost dmf = d.all();
                let elem_type = match self.env.as_list_elem(&lt) {
                    Some(elem) => elem.copy(),
                    None => {
                        let shown = self.env.display(&lt);
                        d.emit(
                            codes::TYPE_MISMATCH,
                            list.span(),
                            cat3("`at` にはリストが必要ですが、", shown.as_str(), " が渡されました"),
                        );
                        Type::Void
                    },
                };
                proof {
                    if !old(self).declared_can_fail && !old(self).is_main {
                        lemma_has_code_kept(dmf, d.all(), old(d).all().len() as int, Code::E410);
                    }
                }
                elem_type
            },
            Expr::Empty { path, elem, span } => {
                let valid = path.len() == 2 && match self.alias(path[0].0.as_str()) {
                    Some(ModuleRef::Std(m)) => builtins::has_empty(m),
                    _ => false,
                };
                if !valid {
                    d.emit(
                        codes::RESOLVE_UNDEFINED,
                        *span,
                        String::from_str("`empty<T>` は std または std.list の修飾名で参照してください"),
                    );
                }
                Type::List(Box::new(resolve_type_expr(self.env, self.module, elem, d)))
            },
            Expr::Construct { .. } => self.check_construct(e, d),
            Expr::From { .. } => self.check_from(e, d),
            Expr::Record { .. } => self.check_record(e, d),
            Expr::ListConstruct { .. } => self.check_list_construct(e, d),
            Expr::Unary { op, operand, span } => match op {
                UnaryOp::Not => {
                    self.check_expr(&**operand, Some(&Type::Bool), d);
                    Type::Bool
                },
                UnaryOp::Neg => {
                    let t = self.check_expr(&**operand, None, d);
                    if !t.is_numeric() {
                        let shown = self.env.display(&t);
                        d.emit(
                            codes::TYPE_OPERATOR,
                            *span,
                            cat3("単項 `-` は数値に使いますが、", shown.as_str(), " が渡されました"),
                        );
                    }
                    t
                },
            },
            Expr::Binary { .. } => {
                return self.check_binary(e, expected, d);
            },
            Expr::When { cond, then_block, else_block, span } => {
                self.check_expr(&**cond, Some(&Type::Bool), d);
                let ghost d1 = d.all();
                let t1 = self.check_block(&**then_block, expected, d);
                let ghost d2 = d.all();
                let t2 = self.check_block(&**else_block, expected, d);
                if expected.is_none() && !t1.same(&t2) {
                    let a = self.env.display(&t1);
                    let b = self.env.display(&t2);
                    d.emit(
                        codes::TYPE_MISMATCH,
                        *span,
                        cat4("when の両分岐の型が一致しません: ", a.as_str(), " と ", b.as_str()),
                    );
                }
                // both branches were checked against the expected type
                return t1;
            },
            Expr::Match { .. } => {
                let t = self.check_match(e, expected, d);
                proof {
                    if match_fault(old(self).env, old(self).scopes@, *e) {
                        assert(d.all()[d.all().len() - 1].code == Code::E404);
                    }
                }
                return t;
            },
        };
        let ghost da = d.all();
        self.expect_type(&actual, expected, e.span(), d);
        proof {
            assert forall|c: Code|
                #[trigger] call_fault(old(self).env, old(self).module as int, *e, old(self).declared_can_fail, old(self).is_main, c)
                    implies has_code(d.all(), old(d).all().len() as int, c) by {
                lemma_has_code_kept(da, d.all(), old(d).all().len() as int, c);
            }
            if *e is At && !old(self).declared_can_fail && !old(self).is_main {
                lemma_has_code_kept(da, d.all(), old(d).all().len() as int, Code::E410);
            }
        }
        actual
    }

    /// Follows a chain of record field references from `start`, beginning at `path[from]`.
    #[verifier::loop_isolation(false)]
    fn walk_fields(&self, start: Type, path: &Vec<(String, Span)>, from: usize, d: &mut Diagnostics) -> (t: Type)
        ensures
            final(d).file() == old(d).file(),
            keeps(old(d).all(), final(d).all()),
            walk_path(*self.env, start, path@, from as int) matches Some(ft) ==> t == ft && final(d).all() == old(d).all(),
            walk_path(*self.env, start, path@, from as int) is None ==> t == Type::Void
                && final(d).all().len() == old(d).all().len() + 1
                && final(d).all().drop_last() == old(d).all()
                && final(d).all().last().code == Code::E401,
    {
        let mut cur = start;
        let mut k: usize = from;
        while k < path.len()
            invariant
                d.file() == old(d).file(),
                d.all() == old(d).all(),
                walk_path(*self.env, start, path@, from as int) == walk_path(*self.env, cur, path@, k as int),
            decreases path@.len() - k,
        {
            let seg = &path[k].0;
            let mut field_ty: Option<Type> = None;
            if let Type::Named(id) = &cur {
                if let Some(def) = self.env.get_type(*id) {
                    if let TypeDefKind::Record(fields) = &def.kind {
                        let mut q: usize = 0;
                        proof {
                            assert(fields@.skip(0) =~= fields@);
                        }
                        while q < fields.len()
                            invariant
                                q <= fields@.len(),
                                field_ty is None,
                                first_field(fields@, seg@) == first_field(fields@.skip(q as int), seg@),
                            decreases fields@.len() - q,
                        {
                            if str_eq(fields[q].name.as_str(), seg.as_str()) {
                                proof {
                                    assert(fields@.skip(q as int)[0] == fields@[q as int]);
                                    assert(first_field(fields@.skip(q as int), seg@) == Some(fields@[q as int].ty));
                                }
                                field_ty = Some(fields[q].ty.copy());
                                break;
                            }
                            proof {
                                assert(fields@.skip(q as int).drop_first() =~= fields@.skip(q + 1));
                            }
                            q = q + 1;
                        }
                        proof {
                            if field_ty is None {
                                assert(fields@.skip(q as int).len() == 0);
                                assert(first_field(fields@, seg@) is None);
                            }
                            assert(self.env.types@[*id as int].kind == TypeDefKind::Record(*fields));
                            assert(field_ty == first_field(fields@, seg@));
                        }
                    }
                }
            }
            assert(field_ty == field_type_of(*self.env, cur, seg@));
            match field_ty {
                Some(ft) => {
                    cur = ft;
                },
                None => {
                    let shown = self.env.display(&cur);
                    d.emit(
                        codes::TYPE_MISMATCH,
                        path[k].1,
                        cat5("", shown.as_str(), " にフィールド `", seg.as_str(), "` はありません"),
                    );
                    proof {
                        assert(d.all().drop_last() =~= old(d).all());
                    }
                    return Type::Void;
                },
            }
            k = k + 1;
        }
        cur
    }

    /// The type of a name used as a value: a local value (with field
    /// references), a constant, or a public constant of an imported module.
    fn check_name(&self, path: &Vec<(String, Span)>, span: Span, d: &mut Diagnostics) -> (t: Type)
        requires
            self.wf(),
        ensures
            final(d).file() == old(d).file(),
            keeps(old(d).all(), final(d).all()),
            path@.len() == 0 ==> t == Type::Void && final(d).all() == old(d).all(),
            path@.len() > 0 ==> (scope_lookup(self.scopes@, path@[0].0@) matches Some(lt) ==> {
                &&& walk_path(*self.env, lt, path@, 1) matches Some(ft) ==> t == ft && final(d).all() == old(d).all()
                &&& walk_path(*self.env, lt, path@, 1) is None ==> t == Type::Void
                    && final(d).all().len() == old(d).all().len() + 1
                    && final(d).all().last().code == Code::E401
            }),
            path@.len() == 1 && scope_lookup(self.scopes@, path@[0].0@) is None ==> {
                let name = path@[0].0@;
                let local = self.env.modules@[self.module as int];
                let is_const = exists|i: int| 0 <= i < self.const_types@.len()
                    && (#[trigger] self.const_types@[i]).0 == self.module && self.const_types@[i].1@ == name;
                &&& is_const ==> final(d).all() == old(d).all() && exists|i: int| 0 <= i < self.const_types@.len()
                    && (#[trigger] self.const_types@[i]).0 == self.module && self.const_types@[i].1@ == name
                    && self.const_types@[i].2 == t
                &&& !is_const ==> t == Type::Void && final(d).all().len() == old(d).all().len() + 1
                    && final(d).all().last().code == (if lookup(local.rules@, name) is Some || lookup(local.flows@, name) is Some {
                        Code::E401
                    } else {
                        Code::E301
                    })
            },
    {
        if path.len() == 0 {
            return Type::Void;
        }
        let first = &path[0].0;
        let first_span = path[0].1;
        if let Some(t) = self.lookup_scope(first.as_str()) {
            // a local value, then record field references
            return self.walk_fields(t, path, 1, d);
        }
        let menv = &self.env.modules[self.module];
        if path.len() == 1 {
            if let Some(t) = self.const_type(self.module, first.as_str()) {
                return t;
            }
            if crate::types::has_key(&menv.rules, first.as_str()) || crate::types::has_key(&menv.flows, first.as_str()) {
                d.emit(
                    codes::TYPE_MISMATCH,
                    span,
                    cat3("`", first.as_str(), "` は R/F であり、値としては参照できません"),
                );
                return Type::Void;
            }
            d.emit(
                codes::RESOLVE_UNDEFINED,
                first_span,
                cat3("値 `", first.as_str(), "` は定義されていません"),
            );
            return Type::Void;
        }
        match self.alias(first.as_str()) {
            Some(ModuleRef::Std(_)) => {
                d.emit(
                    codes::TYPE_MISMATCH,
                    span,
                    String::from_str("組み込み R は引数を付けて呼び出してください"),
                );
                Type::Void
            },
            Some(ModuleRef::User(mid)) => {
                let seg = &path[1].0;
                let seg_span = path[1].1;
                if !self.require_public(seg.as_str(), seg_span, d) {
                    return Type::Void;
                }
                if let Some(t) = self.const_type(mid, seg.as_str()) {
                    return self.walk_fields(t, path, 2, d);
                }
                if mid < self.env.modules.len() && (crate::types::has_key(&self.env.modules[mid].rules, seg.as_str())
                    || crate::types::has_key(&self.env.modules[mid].flows, seg.as_str())) {
                    d.emit(
                        codes::TYPE_MISMATCH,
                        span,
                        cat5("`", first.as_str(), ".", seg.as_str(), "` は R/F であり、値としては参照できません"),
                    );
                    return Type::Void;
                }
                d.emit(
                    codes::RESOLVE_UNDEFINED,
                    seg_span,
                    cat5("`", first.as_str(), ".", seg.as_str(), "` は定義されていません"),
                );
                Type::Void
            },
            None => {
                d.emit(
                    codes::RESOLVE_UNDEFINED,
                    first_span,
                    cat3("値 `", first.as_str(), "` は定義されていません"),
                );
                Type::Void
            },
        }
    }
}

impl<'a> Checker<'a> {
    /// Checks the arguments of a call of a rule: exactly one, of the rule's input type.
    #[verifier::loop_isolation(false)]
    fn check_rule_call(&mut self, label: &str, input: &Type, output: &Type, can_fail: bool, args: &Vec<Expr>, span: Span, d: &mut Diagnostics) -> (t: Type)
        requires
            old(self).wf(),
        ensures
            t == *output,
            unchanged(old(self), final(self)),
            final(d).file() == old(d).file(),
            keeps(old(d).all(), final(d).all()),
            args@.len() != 1 ==> has_code(final(d).all(), old(d).all().len() as int, Code::E401),
            can_fail && !old(self).declared_can_fail && !old(self).is_main ==> final(d).all().len() > old(d).all().len()
                && final(d).all().last().code == Code::E410,
            args@.len() >= 1 && literal_type(args@[0]) is Some && literal_type(args@[0])->0 != *input ==> has_code(
                final(d).all(),
                old(d).all().len() as int,
                Code::E401,
            ),
        decreases args, 0int,
    {
        let ghost n0 = d.all().len();
        if args.len() != 1 {
            d.emit(codes::TYPE_MISMATCH, span, cat3("R `", label, "` は入力を1個だけ取ります"));
        }
        let ghost d1 = d.all();
        proof {
            if args@.len() != 1 {
                assert(d1[n0 as int].code == Code::E401);
            }
        }
        if args.len() > 0 {
            proof {
                assert(decreases_to!(args => args@));
                assert(decreases_to!(args@ => args@[0]));
            }
            self.check_expr(&args[0], Some(input), d);
        }
        let ghost da = d.all();
        proof {
            if args@.len() >= 1 && literal_type(args@[0]) is Some && literal_type(args@[0])->0 != *input {
                assert(da[da.len() - 1].code == Code::E401);
                assert(has_code(da, old(d).all().len() as int, Code::E401));
            }
        }
        let mut k: usize = 1;
        while k < args.len()
            invariant
                self.wf(),
                unchanged(old(self), self),
                d.file() == old(d).file(),
                keeps(old(d).all(), d.all()),
                keeps(d1, d.all()),
                keeps(da, d.all()),
            decreases args@.len() - k,
        {
            proof {
                assert(decreases_to!(args => args@));
                assert(decreases_to!(args@ => args@[k as int]));
            }
            self.check_expr(&args[k], None, d);
            k = k + 1;
        }
        let ghost d2 = d.all();
        if can_fail {
            self.mark_fail(span, cat3("R `", label, "` の呼び出し").as_str(), d);
        }
        proof {
            if args@.len() != 1 {
                assert(d2[n0 as int] == d1[n0 as int]);
                assert(d.all()[n0 as int] == d2[n0 as int]);
            }
            if args@.len() >= 1 && literal_type(args@[0]) is Some && literal_type(args@[0])->0 != *input {
                let w = choose|w: int| old(d).all().len() <= w < da.len() && (#[trigger] da[w]).code == Code::E401;
                assert(d2[w] == da[w]);
                assert(d.all()[w] == d2[w]);
            }
        }
        output.copy()
    }

    /// Checks a call: of a rule of the module, of a std builtin, or of a
    /// public rule of an imported module.
    #[verifier::loop_isolation(false)]
    fn check_call(&mut self, e: &Expr, d: &mut Diagnostics) -> (t: Type)
        requires
            old(self).wf(),
        ensures
            unchanged(old(self), final(self)),
            final(d).file() == old(d).file(),
            keeps(old(d).all(), final(d).all()),
            e matches Expr::Call { path, args, .. } ==> (path@.len() == 1 ==> match lookup(
                old(self).env.modules@[old(self).module as int].rules@,
                path@[0].0@,
            ) {
                Some(info) => {
                    &&& t == info.output
                    &&& args@.len() != 1 ==> has_code(final(d).all(), old(d).all().len() as int, Code::E401)
                    &&& args@.len() >= 1 && literal_type(args@[0]) is Some && literal_type(args@[0])->0 != info.input
                        ==> has_code(final(d).all(), old(d).all().len() as int, Code::E401)
                    &&& info.can_fail && !old(self).declared_can_fail && !old(self).is_main ==> final(d).all().len()
                        > old(d).all().len() && final(d).all().last().code == Code::E410
                },
                None => t == Type::Void && final(d).all().len() > old(d).all().len(),
            }),
        decreases e, 1int,
    {
        let (path, args, span) = match e {
            Expr::Call { path, args, span } => (path, args, *span),
            _ => {
                return Type::Void;
            },
        };
        if path.len() == 0 {
            return Type::Void;
        }
        let env = self.env;
        let menv = &env.modules[self.module];
        if path.len() == 1 {
            let name = &path[0].0;
            let name_span = path[0].1;
            if let Some(info) = menv.rule(name.as_str()) {
                return self.check_rule_call(name.as_str(), &info.input, &info.output, info.can_fail, args, span, d);
            }
            if crate::types::has_key(&menv.flows, name.as_str()) {
                d.emit(
                    codes::TYPE_MISMATCH,
                    span,
                    cat3("F `", name.as_str(), "` は R の中から呼べません (F どうしは F で接続します)"),
                );
                return Type::Void;
            }
            if self.lookup_scope(name.as_str()).is_some() || self.const_type(self.module, name.as_str()).is_some() {
                d.emit(codes::TYPE_MISMATCH, span, cat3("`", name.as_str(), "` は値であり、呼び出せません"));
                return Type::Void;
            }
            d.emit(codes::RESOLVE_UNDEFINED, name_span, cat3("R `", name.as_str(), "` は定義されていません"));
            return Type::Void;
        }
        // a qualified call: a builtin or a rule of an imported module
        let q = &path[0].0;
        match self.alias(q.as_str()) {
            Some(ModuleRef::Std(module)) => {
                if path.len() == 2 {
                    let fname = &path[1].0;
                    let fname_span = path[1].1;
                    let label = cat3(q.as_str(), ".", fname.as_str());
                    if let Some(b) = builtins::lookup(module, fname.as_str()) {
                        let mut arg_types: Vec<Type> = Vec::new();
                        let mut k: usize = 0;
                        while k < args.len()
                            invariant
                                self.wf(),
                                unchanged(old(self), self),
                                d.file() == old(d).file(),
                                keeps(old(d).all(), d.all()),
                            decreases args@.len() - k,
                        {
                            proof {
                                assert(decreases_to!(args => args@));
                                assert(decreases_to!(args@ => args@[k as int]));
                            }
                            let at = self.check_expr(&args[k], None, d);
                            arg_types.push(at);
                            k = k + 1;
                        }
                        match self.std_sig_check(b, label.as_str(), arg_types.as_slice(), span, codes::TYPE_MISMATCH, d) {
                            Some((out, can_fail)) => {
                                if can_fail {
                                    self.mark_fail(span, cat3("`", label.as_str(), "` ").as_str(), d);
                                }
                                return out;
                            },
                            None => {
                                return Type::Void;
                            },
                        }
                    }
                    // declared in std.tcrf, with no implementation here
                    if stdsig::find_sig(&env.std_sigs, fname.as_str()).is_some() {
                        let mut k: usize = 0;
                        while k < args.len()
                            invariant
                                self.wf(),
                                unchanged(old(self), self),
                                d.file() == old(d).file(),
                                keeps(old(d).all(), d.all()),
                            decreases args@.len() - k,
                        {
                            proof {
                                assert(decreases_to!(args => args@));
                                assert(decreases_to!(args@ => args@[k as int]));
                            }
                            self.check_expr(&args[k], None, d);
                            k = k + 1;
                        }
                        d.emit_with_hint(
                            codes::RESOLVE_NOT_IMPLEMENTED,
                            span,
                            cat3("`", label.as_str(), "` は std.tcrf に宣言されていますが、この処理系では未実装です"),
                            String::from_str("std.tcrf のコメントで実装状態を確認できます"),
                        );
                        return Type::Void;
                    }
                    d.emit(codes::RESOLVE_UNDEFINED, fname_span, cat3("`", label.as_str(), "` は定義されていません"));
                    return Type::Void;
                }
                d.emit(codes::RESOLVE_UNDEFINED, span, cat3("`", q.as_str(), "` の下にさらに修飾は付けられません"));
                Type::Void
            },
            Some(ModuleRef::User(mid)) => {
                if path.len() != 2 {
                    d.emit(codes::RESOLVE_UNDEFINED, span, cat3("`", q.as_str(), "` の下にさらに修飾は付けられません"));
                    return Type::Void;
                }
                let fname = &path[1].0;
                let fname_span = path[1].1;
                if !self.require_public(fname.as_str(), fname_span, d) {
                    return Type::Void;
                }
                let label = cat3(q.as_str(), ".", fname.as_str());
                if mid < env.modules.len() {
                    if let Some(info) = env.modules[mid].rule(fname.as_str()) {
                        return self.check_rule_call(label.as_str(), &info.input, &info.output, info.can_fail, args, span, d);
                    }
                    if crate::types::has_key(&env.modules[mid].flows, fname.as_str()) {
                        d.emit(codes::TYPE_MISMATCH, span, cat3("F `", label.as_str(), "` は R の中から呼べません"));
                        return Type::Void;
                    }
                }
                if self.const_type(mid, fname.as_str()).is_some() {
                    d.emit(codes::TYPE_MISMATCH, span, cat3("`", label.as_str(), "` は値であり、呼び出せません"));
                    return Type::Void;
                }
                d.emit(codes::RESOLVE_UNDEFINED, fname_span, cat3("`", label.as_str(), "` は定義されていません"));
                Type::Void
            },
            None => {
                if self.lookup_scope(q.as_str()).is_some() {
                    d.emit(codes::TYPE_MISMATCH, span, String::from_str("フィールド参照の結果は呼び出せません"));
                    return Type::Void;
                }
                d.emit(codes::RESOLVE_UNDEFINED, span, cat3("修飾名 `", q.as_str(), "` は import されていません"));
                Type::Void
            },
        }
    }

    /// Checks `Ctor [payload]` or `TypeName value` (also the parenthesised
    /// `Ctor (payload)`, written as a list construction of one element).
    #[verifier::loop_isolation(false)]
    fn check_construct(&mut self, e: &Expr, d: &mut Diagnostics) -> (t: Type)
        requires
            old(self).wf(),
        ensures
            unchanged(old(self), final(self)),
            final(d).file() == old(d).file(),
            keeps(old(d).all(), final(d).all()),
            construct_names(*e) is None ==> t == Type::Void && final(d).all() == old(d).all(),
            construct_names(*e) matches Some((q, n)) ==> match built_type(old(self).env, old(self).module as int, q, n@) {
                Some(ty) => t == ty,
                None => t == Type::Void && final(d).all().len() > old(d).all().len()
                    && final(d).all()[old(d).all().len() as int].code == Code::E301,
            },
        decreases e, 1int,
    {
        let (qualifier, name, name_span, arg, span): (&Option<String>, &String, Span, Option<&Expr>, Span) = match e {
            Expr::Construct { qualifier, name, name_span, arg, span } => (qualifier, name, *name_span, match arg {
                Some(a) => Some(&**a),
                None => None,
            }, *span),
            Expr::ListConstruct { qualifier, name, name_span, elems, span } => {
                proof {
                    assert(decreases_to!(elems => elems@));
                }
                (qualifier, name, *name_span, if elems.len() > 0 {
                    Some(&elems[0])
                } else {
                    None
                }, *span)
            },
            _ => {
                return Type::Void;
            },
        };
        // an ADT constructor (of this module or of an imported one)
        if let Some((type_id, ctor_idx)) = self.ctor_hit(qualifier, name) {
            let payload: Option<Type> = match self.env.get_type(type_id) {
                Some(def) => match &def.kind {
                    TypeDefKind::Adt(ctors) => if ctor_idx < ctors.len() {
                        match &ctors[ctor_idx].payload {
                            Some(p) => Some(p.copy()),
                            None => None,
                        }
                    } else {
                        None
                    },
                    _ => None,
                },
                None => None,
            };
            match (payload, arg) {
                (Some(pt), Some(a)) => {
                    self.check_expr(a, Some(&pt), d);
                },
                (Some(pt), None) => {
                    let shown = self.env.display(&pt);
                    d.emit(
                        codes::TYPE_MISMATCH,
                        span,
                        cat5("コンストラクタ `", name.as_str(), "` にはペイロード (", shown.as_str(), ") が必要です"),
                    );
                },
                (None, Some(_)) => {
                    d.emit(codes::TYPE_MISMATCH, span, cat3("コンストラクタ `", name.as_str(), "` はペイロードを持ちません"));
                },
                (None, None) => {},
            }
            return Type::Named(type_id);
        }
        match self.lookup_type(qualifier, name) {
            TypeLookup::Builtin(t) => {
                match arg {
                    Some(a) => {
                        self.check_expr(a, Some(&t), d);
                    },
                    None => {
                        d.emit(codes::TYPE_MISMATCH, span, cat3("`", name.as_str(), "` の構築には値が必要です"));
                    },
                }
                t
            },
            TypeLookup::Id(id) => {
                let kind = match self.env.get_type(id) {
                    Some(def) => match &def.kind {
                        TypeDefKind::Usage(inner) => Some(Some(inner.copy())),
                        TypeDefKind::Record(_) => Some(None),
                        _ => None,
                    },
                    None => None,
                };
                match kind {
                    Some(Some(inner)) => {
                        match arg {
                            Some(a) => {
                                self.check_expr(a, Some(&inner), d);
                            },
                            None => {
                                let shown = self.env.display(&inner);
                                d.emit(
                                    codes::TYPE_MISMATCH,
                                    span,
                                    cat5("用途型 `", name.as_str(), "` の構築には内部値 (", shown.as_str(), ") が必要です"),
                                );
                            },
                        }
                    },
                    Some(None) => {
                        d.emit(
                            codes::TYPE_RECORD_FIELDS,
                            span,
                            cat3("レコード型 `", name.as_str(), "` の構築には `{ フィールド = 値 }` を使います"),
                        );
                    },
                    None => {
                        d.emit(codes::TYPE_MISMATCH, span, cat3("`", name.as_str(), "` はこの形では構築できません"));
                    },
                }
                Type::Named(id)
            },
            TypeLookup::NotFound => {
                d.emit(
                    codes::RESOLVE_UNDEFINED,
                    name_span,
                    cat3("型またはコンストラクタ `", name.as_str(), "` は定義されていません"),
                );
                Type::Void
            },
        }
    }
}

impl<'a> Checker<'a> {
    /// Checks `TypeName( elem... )`: a list usage type built from its elements,
    /// or a parenthesised single-value construction.
    #[verifier::loop_isolation(false)]
    fn check_list_construct(&mut self, e: &Expr, d: &mut Diagnostics) -> (t: Type)
        requires
            old(self).wf(),
        ensures
            unchanged(old(self), final(self)),
            final(d).file() == old(d).file(),
            keeps(old(d).all(), final(d).all()),
            !(*e is ListConstruct) ==> t == Type::Void && final(d).all() == old(d).all(),
            e matches Expr::ListConstruct { qualifier, name, elems, .. } ==> match (
                if elems@.len() == 1 && spec_ctor_hit(old(self).env, old(self).module as int, *qualifier, name@) is Some {
                    built_type(old(self).env, old(self).module as int, *qualifier, name@)
                } else {
                    spec_named_type(old(self).env, old(self).module as int, *qualifier, name@)
                }) {
                Some(ty) => t == ty,
                None => t == Type::Void && final(d).all().len() > old(d).all().len()
                    && final(d).all()[old(d).all().len() as int].code == Code::E301,
            },
        decreases e, 2int,
    {
        let (qualifier, name, name_span, elems, span) = match e {
            Expr::ListConstruct { qualifier, name, name_span, elems, span } => (qualifier, name, *name_span, elems, *span),
            _ => {
                return Type::Void;
            },
        };
        // `Ctor (expr)`: an ADT construction with a parenthesised payload
        if elems.len() == 1 && self.ctor_hit(qualifier, name).is_some() {
            return self.check_construct(e, d);
        }
        match self.lookup_type(qualifier, name) {
            TypeLookup::Builtin(t) => {
                // a parenthesised construction such as `Text ("x")`
                if elems.len() == 1 {
                    proof {
                        assert(decreases_to!(elems => elems@));
                        assert(decreases_to!(elems@ => elems@[0]));
                    }
                    self.check_expr(&elems[0], Some(&t), d);
                } else {
                    d.emit(codes::TYPE_MISMATCH, span, cat3("`", name.as_str(), "` の構築には値が1個必要です"));
                }
                t
            },
            TypeLookup::Id(id) => {
                let kind = match self.env.get_type(id) {
                    Some(def) => match &def.kind {
                        TypeDefKind::Usage(inner) => Some(Some(inner.copy())),
                        TypeDefKind::Record(_) => Some(None),
                        _ => None,
                    },
                    None => None,
                };
                match kind {
                    Some(Some(Type::List(elem))) => {
                        // a list usage type from its elements
                        let mut k: usize = 0;
                        while k < elems.len()
                            invariant
                                self.wf(),
                                unchanged(old(self), self),
                                d.file() == old(d).file(),
                                keeps(old(d).all(), d.all()),
                            decreases elems@.len() - k,
                        {
                            proof {
                                assert(decreases_to!(elems => elems@));
                                assert(decreases_to!(elems@ => elems@[k as int]));
                            }
                            self.check_expr(&elems[k], Some(&*elem), d);
                            k = k + 1;
                        }
                    },
                    Some(Some(other)) => {
                        // a usage type with a parenthesised value
                        if elems.len() == 1 {
                            proof {
                                assert(decreases_to!(elems => elems@));
                                assert(decreases_to!(elems@ => elems@[0]));
                            }
                            self.check_expr(&elems[0], Some(&other), d);
                        } else {
                            d.emit(
                                codes::TYPE_MISMATCH,
                                span,
                                cat3("用途型 `", name.as_str(), "` の内部型はリストではないため、複数要素では構築できません"),
                            );
                        }
                    },
                    Some(None) => {
                        d.emit(
                            codes::TYPE_RECORD_FIELDS,
                            span,
                            cat3("レコード型 `", name.as_str(), "` の構築には `{ フィールド = 値 }` を使います"),
                        );
                    },
                    None => {
                        d.emit(codes::TYPE_MISMATCH, span, cat3("`", name.as_str(), "` はこの形では構築できません"));
                    },
                }
                Type::Named(id)
            },
            TypeLookup::NotFound => {
                d.emit(codes::RESOLVE_UNDEFINED, name_span, cat3("型 `", name.as_str(), "` は定義されていません"));
                Type::Void
            },
        }
    }

    /// Checks `A from x`: `A` and the type of `x` must be usage types with the
    /// same inner type; the value keeps its representation.
    #[verifier::loop_isolation(false)]
    fn check_from(&mut self, e: &Expr, d: &mut Diagnostics) -> (t: Type)
        requires
            old(self).wf(),
        ensures
            unchanged(old(self), final(self)),
            final(d).file() == old(d).file(),
            keeps(old(d).all(), final(d).all()),
            !(*e is From) ==> t == Type::Void && final(d).all() == old(d).all(),
            e matches Expr::From { qualifier, name, .. } ==> match spec_named_type(old(self).env, old(self).module as int, *qualifier, name@) {
                Some(Type::Named(id)) => t == Type::Named(id),
                Some(_) => t == Type::Void && final(d).all().len() > old(d).all().len()
                    && final(d).all()[old(d).all().len() as int].code == Code::E413,
                None => t == Type::Void && final(d).all().len() > old(d).all().len()
                    && final(d).all()[old(d).all().len() as int].code == Code::E301,
            },
        decreases e, 1int,
    {
        let (qualifier, name, name_span, value, span) = match e {
            Expr::From { qualifier, name, name_span, value, span } => (qualifier, name, *name_span, &**value, *span),
            _ => {
                return Type::Void;
            },
        };
        let id = match self.lookup_type(qualifier, name) {
            TypeLookup::Id(id) => id,
            TypeLookup::Builtin(_) => {
                d.emit_with_hint(
                    codes::TYPE_TRANSITION,
                    name_span,
                    cat3("`from` の対象型は用途型でなければなりませんが、`", name.as_str(), "` は組み込み型です"),
                    String::from_str("組み込み型の値は `型名 値` で構築してください"),
                );
                self.check_expr(value, None, d);
                return Type::Void;
            },
            TypeLookup::NotFound => {
                d.emit(codes::RESOLVE_UNDEFINED, name_span, cat3("型 `", name.as_str(), "` は定義されていません"));
                self.check_expr(value, None, d);
                return Type::Void;
            },
        };
        let inner = match self.env.get_type(id) {
            Some(def) => match &def.kind {
                TypeDefKind::Usage(inner) => Some(inner.copy()),
                _ => None,
            },
            None => None,
        };
        let inner = match inner {
            Some(i) => i,
            None => {
                d.emit(
                    codes::TYPE_TRANSITION,
                    name_span,
                    cat3("`from` の対象型は用途型でなければなりませんが、`", name.as_str(), "` は用途型ではありません"),
                );
                self.check_expr(value, None, d);
                return Type::Named(id);
            },
        };
        let vt = self.check_expr(value, None, d);
        let same = match self.env.usage_inner(&vt) {
            Some(vi) => vi.same(&inner),
            None => false,
        };
        if !same {
            let tname = match self.env.get_type(id) {
                Some(def) => def.name.clone(),
                None => String::new(),
            };
            let i_shown = self.env.display(&inner);
            let v_shown = self.env.display(&vt);
            let mut m = cat6("`from` は内部型が同じ用途型どうしにだけ使えます: ", tname.as_str(), " の内部型は ", i_shown.as_str(), " ですが、", v_shown.as_str());
            m.append(" が渡されました");
            d.emit_with_hint(
                codes::TYPE_TRANSITION,
                span,
                m,
                String::from_str("内部表現が変わる変換には本体を持つ R を使ってください"),
            );
        }
        Type::Named(id)
    }

    /// Checks `TypeName { field = value ... }`: every field of the record once,
    /// none besides (E403).
    #[verifier::loop_isolation(false)]
    fn check_record(&mut self, e: &Expr, d: &mut Diagnostics) -> (t: Type)
        requires
            old(self).wf(),
        ensures
            unchanged(old(self), final(self)),
            final(d).file() == old(d).file(),
            keeps(old(d).all(), final(d).all()),
            !(*e is Record) ==> t == Type::Void && final(d).all() == old(d).all(),
            e matches Expr::Record { qualifier, name, .. } ==> match spec_named_type(old(self).env, old(self).module as int, *qualifier, name@) {
                Some(Type::Named(id)) => t == Type::Named(id) && (!(id < old(self).env.types@.len()
                    && old(self).env.types@[id as int].kind is Record) ==> final(d).all().len() > old(d).all().len()
                    && final(d).all()[old(d).all().len() as int].code == Code::E403),
                _ => t == Type::Void && final(d).all().len() > old(d).all().len()
                    && final(d).all()[old(d).all().len() as int].code == Code::E301,
            },
        decreases e, 1int,
    {
        let (qualifier, name, name_span, inits) = match e {
            Expr::Record { qualifier, name, name_span, fields, .. } => (qualifier, name, *name_span, fields),
            _ => {
                return Type::Void;
            },
        };
        let found = match self.lookup_type(qualifier, name) {
            TypeLookup::Id(id) => Some(id),
            _ => None,
        };
        let field_types: Option<Vec<(String, Type)>> = match found {
            Some(id) => match self.env.get_type(id) {
                Some(def) => match &def.kind {
                    TypeDefKind::Record(fields) => {
                        let mut ft: Vec<(String, Type)> = Vec::new();
                        let mut q: usize = 0;
                        while q < fields.len()
                            decreases fields@.len() - q,
                        {
                            ft.push((fields[q].name.clone(), fields[q].ty.copy()));
                            q = q + 1;
                        }
                        Some(ft)
                    },
                    _ => None,
                },
                None => None,
            },
            None => None,
        };
        if field_types.is_none() {
            match found {
                None => {
                    d.emit(codes::RESOLVE_UNDEFINED, name_span, cat3("レコード型 `", name.as_str(), "` は定義されていません"));
                },
                Some(_) => {
                    d.emit(codes::TYPE_RECORD_FIELDS, name_span, cat3("`", name.as_str(), "` はレコード型ではありません"));
                },
            }
            let ghost emitted = d.all();
            let mut k: usize = 0;
            while k < inits.len()
                invariant
                    self.wf(),
                    unchanged(old(self), self),
                    d.file() == old(d).file(),
                    keeps(old(d).all(), d.all()),
                    keeps(emitted, d.all()),
                decreases inits@.len() - k,
            {
                proof {
                    assert(decreases_to!(inits => inits@));
                    assert(decreases_to!(inits@ => inits@[k as int]));
                }
                self.check_expr(&inits[k].value, None, d);
                k = k + 1;
            }
            return match found {
                Some(id) => Type::Named(id),
                None => Type::Void,
            };
        }
        let field_types = field_types.unwrap();
        let mut seen: Vec<String> = Vec::new();
        let mut k: usize = 0;
        while k < inits.len()
            invariant
                self.wf(),
                unchanged(old(self), self),
                d.file() == old(d).file(),
                keeps(old(d).all(), d.all()),
            decreases inits@.len() - k,
        {
            let init = &inits[k];
            proof {
                assert(decreases_to!(inits => inits@));
                assert(decreases_to!(inits@ => inits@[k as int]));
            }
            match find(&field_types, init.name.as_str()) {
                Some(fi) => {
                    if has_name(&seen, init.name.as_str()) {
                        d.emit(codes::TYPE_RECORD_FIELDS, init.name_span, cat3("フィールド `", init.name.as_str(), "` が重複しています"));
                    }
                    self.check_expr(&init.value, Some(&field_types[fi].1), d);
                },
                None => {
                    d.emit(
                        codes::TYPE_RECORD_FIELDS,
                        init.name_span,
                        cat5("`", name.as_str(), "` に余分なフィールド `", init.name.as_str(), "` があります"),
                    );
                    self.check_expr(&init.value, None, d);
                },
            }
            seen.push(init.name.clone());
            k = k + 1;
        }
        let mut q: usize = 0;
        while q < field_types.len()
            invariant
                d.file() == old(d).file(),
                keeps(old(d).all(), d.all()),
            decreases field_types@.len() - q,
        {
            if !has_name(&seen, field_types[q].0.as_str()) {
                d.emit(codes::TYPE_RECORD_FIELDS, name_span, cat3("フィールド `", field_types[q].0.as_str(), "` が指定されていません"));
            }
            q = q + 1;
        }
        match found {
            Some(id) => Type::Named(id),
            None => Type::Void,
        }
    }
}

impl<'a> Checker<'a> {
    /// The inner type of a usage type; any other type stands for itself.
    fn inner_or_self(&self, t: &Type) -> (r: Type)
        ensures
            r == match self.env.spec_usage_inner(*t) {
                Some(i) => i,
                None => *t,
            },
    {
        match self.env.usage_inner(t) {
            Some(i) => i.copy(),
            None => t.copy(),
        }
    }

    fn operator_error(&self, op: BinOp, lt: &Type, rt: &Type, span: Span, d: &mut Diagnostics)
        ensures
            one_more(old(d).all(), final(d).all(), Code::E411),
            final(d).file() == old(d).file(),
    {
        let l = self.env.display(lt);
        let r = self.env.display(rt);
        let mut m = cat6("演算子 `", op.symbol(), "` は ", l.as_str(), " と ", r.as_str());
        m.append(" には適用できません");
        d.emit(codes::TYPE_OPERATOR, span, m);
    }

    /// Checks a binary operation. Arithmetic on usage types is allowed when
    /// both inner types are the same numeric type; the result type then comes
    /// from the context (E412 when there is none).
    #[verifier::loop_isolation(false)]
    fn check_binary(&mut self, e: &Expr, expected: Option<&Type>, d: &mut Diagnostics) -> (t: Type)
        requires
            old(self).wf(),
        ensures
            unchanged(old(self), final(self)),
            final(d).file() == old(d).file(),
            keeps(old(d).all(), final(d).all()),
            checks_to(expected, t, old(d).all(), final(d).all()),
            !(*e is Binary) ==> final(d).all() == old(d).all() && t == match expected {
                Some(x) => *x,
                None => Type::Void,
            },
            e matches Expr::Binary { op, .. } ==> (!op.is_arith() ==> t == Type::Bool),
            e matches Expr::Binary { op, left, right, .. } ==> (!(op is And || op is Or)
                && operand_type(old(self).scopes@, **left) is Some && operand_type(old(self).scopes@, **right) is Some ==> {
                let lt = operand_type(old(self).scopes@, **left)->0;
                let rt = operand_type(old(self).scopes@, **right)->0;
                &&& (has_code(final(d).all(), old(d).all().len() as int, Code::E411) <==> !op_fits(*op, lt, rt))
                &&& (op.is_arith() ==> t == lt)
            }),
        decreases e, 1int,
    {
        let ghost d0 = d.all();
        let (op, left, right, span) = match e {
            Expr::Binary { op, left, right, span } => (*op, &**left, &**right, *span),
            _ => {
                return match expected {
                    Some(x) => x.copy(),
                    None => Type::Void,
                };
            },
        };
        match op {
            BinOp::And | BinOp::Or => {
                self.check_expr(left, Some(&Type::Bool), d);
                self.check_expr(right, Some(&Type::Bool), d);
                let t = Type::Bool;
                self.expect_type(&t, expected, span, d);
                t
            },
            BinOp::Lt | BinOp::Le | BinOp::Gt | BinOp::Ge | BinOp::Eq | BinOp::Ne => {
                let lt = self.check_expr(left, None, d);
                let rt = self.check_expr(right, None, d);
                let li = self.inner_or_self(&lt);
                let ri = self.inner_or_self(&rt);
                let comparable = match op {
                    BinOp::Eq | BinOp::Ne => li.is_equatable_scalar(),
                    _ => li.is_ordered_scalar(),
                };
                let ghost d1 = d.all();
                if !li.same(&ri) || !comparable {
                    self.operator_error(op, &lt, &rt, span, d);
                }
                let ghost d2 = d.all();
                let t = Type::Bool;
                self.expect_type(&t, expected, span, d);
                proof {
                    if operand_type(old(self).scopes@, *left) is Some && operand_type(old(self).scopes@, *right) is Some {
                        assert(d1 == d0);
                        if op_fits(op, lt, rt) {
                            assert(d2 == d0);
                            assert forall|k: int| d0.len() <= k < d.all().len() implies (#[trigger] d.all()[k]).code != Code::E411 by {
                                assert(d.all()[k].code == Code::E401);
                            }
                        } else {
                            assert(d2[d0.len() as int].code == Code::E411);
                            assert(d.all()[d0.len() as int] == d2[d0.len() as int]);
                        }
                    }
                }
                t
            },
            BinOp::Add | BinOp::Sub | BinOp::Mul | BinOp::Div | BinOp::Rem => {
                let lt = self.check_expr(left, None, d);
                let rt = self.check_expr(right, None, d);
                let divides = match op {
                    BinOp::Div | BinOp::Rem => true,
                    _ => false,
                };
                // builtin numbers of one type
                let ghost d1 = d.all();
                if lt.same(&rt) && lt.is_numeric() {
                    if op == BinOp::Rem && lt.same(&Type::Decimal) {
                        d.emit(codes::TYPE_OPERATOR, span, String::from_str("`%` は Decimal には使えません"));
                    }
                    let ghost d2 = d.all();
                    if divides {
                        self.mark_fail(span, "0除算の可能性がある演算", d);
                    }
                    let ghost d3 = d.all();
                    self.expect_type(&lt, expected, span, d);
                    proof {
                        if operand_type(old(self).scopes@, *left) is Some && operand_type(old(self).scopes@, *right) is Some {
                            assert(d1 == d0);
                            if op_fits(op, lt, rt) {
                                assert(d2 == d0);
                                assert forall|k: int| d0.len() <= k < d.all().len() implies (#[trigger] d.all()[k]).code != Code::E411 by {
                                    if k < d3.len() {
                                        assert(d.all()[k] == d3[k]);
                                        assert(d3[k].code == Code::E410);
                                    } else {
                                        assert(d.all()[k].code == Code::E401);
                                    }
                                }
                            } else {
                                assert(d2[d0.len() as int].code == Code::E411);
                                assert(d3[d0.len() as int] == d2[d0.len() as int]);
                                assert(d.all()[d0.len() as int] == d3[d0.len() as int]);
                            }
                        }
                    }
                    return lt;
                }
                // usage types: allowed when both inner types are the same numeric
                // type; the result type comes from the context (a binding's annotation)
                let li = self.inner_or_self(&lt);
                let ri = self.inner_or_self(&rt);
                let has_usage = self.env.usage_inner(&lt).is_some() || self.env.usage_inner(&rt).is_some();
                if has_usage && li.same(&ri) && li.is_numeric() {
                    if op == BinOp::Rem && li.same(&Type::Decimal) {
                        d.emit(codes::TYPE_OPERATOR, span, String::from_str("`%` は Decimal には使えません"));
                    }
                    if divides {
                        self.mark_fail(span, "0除算の可能性がある演算", d);
                    }
                    return match expected {
                        Some(exp) => {
                            let fits = match self.env.usage_inner(exp) {
                                Some(i) => i.same(&li),
                                None => false,
                            };
                            if !fits {
                                let x = self.env.display(exp);
                                let i = self.env.display(&li);
                                let mut m = cat5("用途型演算の結果を ", x.as_str(), " にはできません (内部型 ", i.as_str(), " の用途型が必要です)");
                                d.emit(codes::TYPE_OPERATOR, span, m);
                            }
                            exp.copy()
                        },
                        None => {
                            d.emit_with_hint(
                                codes::TYPE_CANNOT_INFER,
                                span,
                                String::from_str("用途型どうしの演算の結果型を推論できません"),
                                String::from_str("`名前 : 型 = 式` の形で結果の型注釈を付けてください"),
                            );
                            li
                        },
                    };
                }
                let ghost d4 = d.all();
                self.operator_error(op, &lt, &rt, span, d);
                let ghost d5 = d.all();
                self.expect_type(&lt, expected, span, d);
                proof {
                    if operand_type(old(self).scopes@, *left) is Some && operand_type(old(self).scopes@, *right) is Some {
                        assert(d4 == d0);
                        assert(d5[d0.len() as int].code == Code::E411);
                        assert(d.all()[d0.len() as int] == d5[d0.len() as int]);
                    }
                }
                lt
            },
        }
    }

    /// Checks a `match` over an ADT value: each constructor covered once,
    /// every branch of one type.
    #[verifier::loop_isolation(false)]
    fn check_match(&mut self, e: &Expr, expected: Option<&Type>, d: &mut Diagnostics) -> (t: Type)
        requires
            old(self).wf(),
        ensures
            unchanged(old(self), final(self)),
            final(d).file() == old(d).file(),
            keeps(old(d).all(), final(d).all()),
            checks_to(expected, t, old(d).all(), final(d).all()),
            !(*e is Match) ==> final(d).all() == old(d).all() && t == match expected {
                Some(x) => *x,
                None => Type::Void,
            },
            e matches Expr::Match { scrutinee, arms, span } ==> (scrutinee_ctors(old(self).env, old(self).scopes@, **scrutinee)
                matches Some(cs) ==> (missing_names(cs, arms@).len() > 0 ==> {
                &&& final(d).all().len() > old(d).all().len()
                &&& final(d).all().last().code == Code::E404
                &&& final(d).all().last().span == *span
                &&& final(d).all().last().message@ == "match がすべてのコンストラクタを網羅していません: "@
                    + joined(missing_names(cs, arms@), ", "@) + " が不足しています"@
            })),
            e matches Expr::Match { scrutinee, arms, .. } ==> (expected is None && scrutinee_ctors(
                old(self).env,
                old(self).scopes@,
                **scrutinee,
            ) is Some && arms_disagree(arms@, arms@.len() as int) ==> has_code(
                final(d).all(),
                old(d).all().len() as int,
                Code::E401,
            )),
        decreases e, 1int,
    {
        let (scrutinee, arms, span) = match e {
            Expr::Match { scrutinee, arms, span } => (&**scrutinee, arms, *span),
            _ => {
                return match expected {
                    Some(x) => x.copy(),
                    None => Type::Void,
                };
            },
        };
        let st = self.check_expr(scrutinee, None, d);
        let ctors: Option<Vec<(String, Option<Type>)>> = match &st {
            Type::Named(id) => match self.env.get_type(*id) {
                Some(def) => match &def.kind {
                    TypeDefKind::Adt(cs) => Some(copy_ctors(cs)),
                    _ => None,
                },
                None => None,
            },
            _ => None,
        };
        let ctors = match ctors {
            Some(c) => c,
            None => {
                let shown = self.env.display(&st);
                d.emit(
                    codes::TYPE_MISMATCH,
                    scrutinee.span(),
                    cat3("match の対象は代数データ型でなければなりませんが、", shown.as_str(), " が渡されました"),
                );
                return match expected {
                    Some(x) => x.copy(),
                    None => Type::Void,
                };
            },
        };
        let ghost d0 = d.all();
        let mut seen: Vec<String> = Vec::new();
        let mut result: Option<Type> = None;
        let mut k: usize = 0;
        while k < arms.len()
            invariant
                self.wf(),
                unchanged(old(self), self),
                d.file() == old(d).file(),
                keeps(old(d).all(), d.all()),
                keeps(d0, d.all()),
                keeps(old(d).all(), d0),
                expected matches Some(x) ==> (d.all().len() == old(d).all().len() ==> (result matches Some(r) ==> r == *x)),
                k <= arms@.len(),
                (k >= 1) == (result is Some),
                k >= 1 && arm_literal(arms@[0]) is Some ==> result == arm_literal(arms@[0]),
                expected is None && arms_disagree(arms@, k as int) ==> has_code(d.all(), old(d).all().len() as int, Code::E401),
                forall|x: Seq<char>| #[trigger] seen_has(seen@, x) <==> (exists|j: int| 0 <= j < k
                    && (#[trigger] arms@[j]).ctor@ == x && lookup(ctors@, x) is Some),
            decreases arms@.len() - k,
        {
            let arm = &arms[k];
            let ghost dk = d.all();
            proof {
                assert(decreases_to!(arms => arms@));
                assert(decreases_to!(arms@ => arms@[k as int]));
            }
            let payload: Option<Type> = match find(&ctors, arm.ctor.as_str()) {
                Some(ci) => {
                    if has_name(&seen, arm.ctor.as_str()) {
                        d.emit(codes::TYPE_MATCH_DUPLICATE, arm.ctor_span, cat3("分岐 `", arm.ctor.as_str(), "` が重複しています"));
                    }
                    let ghost sb = seen@;
                    seen.push(arm.ctor.clone());
                    proof {
                        assert forall|x: Seq<char>| #[trigger] seen_has(seen@, x) <==> (seen_has(sb, x) || arms@[k as int].ctor@ == x) by {
                            if seen_has(seen@, x) {
                                let i = choose|i: int| 0 <= i < seen@.len() && (#[trigger] seen@[i])@ == x;
                                if i < sb.len() {
                                    assert(sb[i] == seen@[i]);
                                }
                            }
                            if seen_has(sb, x) {
                                let i = choose|i: int| 0 <= i < sb.len() && (#[trigger] sb[i])@ == x;
                                assert(seen@[i] == sb[i]);
                            }
                            if arms@[k as int].ctor@ == x {
                                assert(seen@[sb.len() as int] == arms@[k as int].ctor);
                            }
                        }
                    }
                    match &ctors[ci].1 {
                        Some(p) => Some(p.copy()),
                        None => None,
                    }
                },
                None => {
                    let shown = self.env.display(&st);
                    d.emit(
                        codes::TYPE_MISMATCH,
                        arm.ctor_span,
                        cat5("", shown.as_str(), " にコンストラクタ `", arm.ctor.as_str(), "` はありません"),
                    );
                    None
                },
            };
            let mut arm_scope: Vec<(String, Type)> = Vec::new();
            match &arm.binding {
                Some((bname, bspan)) => match payload {
                    Some(pt) => {
                        if self.lookup_scope(bname.as_str()).is_some() {
                            d.emit(
                                codes::TYPE_SHADOWING,
                                *bspan,
                                cat3("値 `", bname.as_str(), "` は外側の束縛を隠せません (シャドーイング禁止)"),
                            );
                        }
                        arm_scope.push((bname.clone(), pt));
                    },
                    None => {
                        d.emit(
                            codes::TYPE_MISMATCH,
                            *bspan,
                            cat3("コンストラクタ `", bname.as_str(), "` にペイロードはありません"),
                        );
                    },
                },
                None => {},
            }
            let ghost before = self.scopes@;
            self.scopes.push(arm_scope);
            let ghost da = d.all();
            let t = self.check_block(&arm.body, expected, d);
            let ghost db = d.all();
            proof {
                assert(*arm == arms@[k as int]);
                if arm_literal(arms@[k as int]) is Some {
                    assert(t == arm_literal(arms@[k as int])->0);
                }
            }
            let ghost full = self.scopes@;
            self.scopes.pop();
            proof {
                assert(self.scopes@ =~= full.drop_last());
                assert(full =~= before.push(full.last()));
                assert(self.scopes@ == before);
                assert(before == old(self).scopes@);
                assert(self.env == old(self).env);
                assert(self.module == old(self).module);
                assert(self.const_types == old(self).const_types);
            }
            match &result {
                None => {
                    result = Some(t);
                },
                Some(prev) => {
                    if expected.is_none() && !prev.same(&t) {
                        let a = self.env.display(prev);
                        let b = self.env.display(&t);
                        d.emit(
                            codes::TYPE_MISMATCH,
                            span,
                            cat4("match の分岐の型が一致しません: ", a.as_str(), " と ", b.as_str()),
                        );
                        proof {
                            assert(d.all()[db.len() as int].code == Code::E401);
                        }
                    }
                },
            }
            proof {
                if expected is None && arms_disagree(arms@, k as int + 1) {
                    if arms_disagree(arms@, k as int) {
                        let w = choose|w: int| old(d).all().len() <= w < dk.len() && (#[trigger] dk[w]).code == Code::E401;
                        assert(da[w] == dk[w]);
                        assert(db[w] == da[w]);
                        assert(d.all()[w] == db[w]);
                    } else {
                        assert(k >= 1);
                        assert(arm_literal(arms@[k as int]) is Some && arm_literal(arms@[k as int]) != arm_literal(arms@[0]));
                        assert(d.all()[db.len() as int].code == Code::E401);
                    }
                }
            }
            proof {
                assert forall|x: Seq<char>| #[trigger] seen_has(seen@, x) <==> (exists|j: int| 0 <= j < k + 1
                    && (#[trigger] arms@[j]).ctor@ == x && lookup(ctors@, x) is Some) by {
                    if exists|j: int| 0 <= j < k + 1 && (#[trigger] arms@[j]).ctor@ == x && lookup(ctors@, x) is Some {
                        let j = choose|j: int| 0 <= j < k + 1 && (#[trigger] arms@[j]).ctor@ == x && lookup(ctors@, x) is Some;
                        if j < k {
                            assert(exists|j2: int| 0 <= j2 < k && (#[trigger] arms@[j2]).ctor@ == x && lookup(ctors@, x) is Some);
                        }
                    }
                }
            }
            k = k + 1;
        }
        proof {
            if let Some(cs) = scrutinee_ctors(old(self).env, old(self).scopes@, *scrutinee) {
                lemma_unseen_missing(ctors@, cs, seen@, arms@);
            }
        }
        let ghost dl = d.all();
        if let Some(missing) = missing_ctors(&ctors, &seen) {
            d.emit(
                codes::TYPE_MATCH_NOT_EXHAUSTIVE,
                span,
                cat3("match がすべてのコンストラクタを網羅していません: ", missing.as_str(), " が不足しています"),
            );
        }
        proof {
            if expected is None && arms_disagree(arms@, arms@.len() as int) {
                let w = choose|w: int| old(d).all().len() <= w < dl.len() && (#[trigger] dl[w]).code == Code::E401;
                assert(d.all()[w] == dl[w]);
            }
        }
        match result {
            Some(r) => r,
            None => match expected {
                Some(x) => x.copy(),
                None => Type::Void,
            },
        }
    }
}

/// A transition rule (`=>`) connects two usage types of the same inner type.
pub open spec fn transition_ok(env: &Env, input: Type, output: Type) -> bool {
    &&& env.spec_usage_inner(input) is Some
    &&& env.spec_usage_inner(input) == env.spec_usage_inner(output)
}

/// Declaration `i` of module `m` is a rule `A => B` between types that are
/// not usage types of one inner type.
pub open spec fn bad_transition(loaded: &Loaded, env: &Env, m: int, i: int) -> bool {
    &&& 0 <= m < env.modules@.len()
    &&& m < loaded.units@.len()
    &&& 0 <= i < loaded.units@[m].program.decls@.len()
    &&& loaded.units@[m].program.decls@[i] matches Decl::Rule(r)
    &&& r.kind is Transition
    &&& lookup(env.modules@[m].rules@, r.name@) matches Some(info)
    &&& info.decl == i
    &&& !transition_ok(env, info.input, info.output)
}

/// Some diagnostic of file `file` has code `code`.
pub open spec fn reported(d: Seq<crate::diagnostics::Diagnostic>, code: Code, file: usize) -> bool {
    exists|j: int| 0 <= j < d.len() && (#[trigger] d[j]).code == code && d[j].file == file
}

/// What was reported stays reported as diagnostics are added.
proof fn lemma_reported_kept(a: Seq<crate::diagnostics::Diagnostic>, b: Seq<crate::diagnostics::Diagnostic>, code: Code, file: usize)
    requires
        reported(a, code, file),
        keeps(a, b),
    ensures
        reported(b, code, file),
{
    let j = choose|j: int| 0 <= j < a.len() && (#[trigger] a[j]).code == code && a[j].file == file;
    assert(b[j] == a[j]);
}

impl<'a> Checker<'a> {
    /// Checks a rule: a transition's two types, or a body against the output type.
    fn check_rule(&mut self, decl: &crate::ast::RuleDecl, info: &crate::types::RuleInfo, d: &mut Diagnostics)
        requires
            old(self).wf(),
        ensures
            unchanged(old(self), final(self)),
            final(d).file() == old(d).file(),
            keeps(old(d).all(), final(d).all()),
            decl.kind is Transition ==> (transition_ok(old(self).env, info.input, info.output) <==> final(d).all() == old(d).all()),
            decl.kind is Transition && !transition_ok(old(self).env, info.input, info.output) ==> final(d).all().len() == old(d).all().len() + 1
                && final(d).all().last().code == Code::E413 && final(d).all().last().file == old(d).file(),
            forall|c: Code|
                #[trigger] rule_call_fault(old(self).env, old(self).module as int, *decl, old(self).declared_can_fail, old(self).is_main, c)
                    ==> has_code(final(d).all(), old(d).all().len() as int, c),
            rule_match_fault(old(self).env, *decl, info.input) ==> has_code(final(d).all(), old(d).all().len() as int, Code::E404),
    {
        match &decl.kind {
            RuleKind::Transition { input, output } => {
                let ok = match (self.env.usage_inner(&info.input), self.env.usage_inner(&info.output)) {
                    (Some(a), Some(b)) => a.same(b),
                    _ => false,
                };
                if !ok {
                    d.emit_with_hint(
                        codes::TYPE_TRANSITION,
                        input.span().merge(output.span()),
                        String::from_str("表現保持型遷移 (`=>`) は、内部型が同じ用途型どうしにだけ使えます"),
                        String::from_str("内部表現が変わる変換には `>` と R 本体を使ってください"),
                    );
                }
            },
            RuleKind::Normal { body, .. } => {
                let mut root: Vec<(String, Type)> = Vec::new();
                if decl.params.len() > 0 {
                    root.push((decl.params[0].0.clone(), info.input.copy()));
                }
                let ghost before = self.scopes@;
                self.scopes.push(root);
                proof {
                    if rule_match_fault(old(self).env, *decl, info.input) {
                        let p0 = decl.params@[0].0@;
                        assert(self.scopes@.last()@[0].0@ == p0);
                        crate::types::lemma_lookup_found(self.scopes@.last()@, p0, 0);
                        assert(scope_lookup(self.scopes@, p0) == Some(info.input));
                        assert(match_fault(self.env, self.scopes@, body.result));
                    }
                }
                self.check_block(body, Some(&info.output), d);
                let ghost full = self.scopes@;
                self.scopes.pop();
                proof {
                    assert(self.scopes@ =~= full.drop_last());
                    assert(full =~= before.push(full.last()));
                    assert(self.scopes@ == before);
                    assert(self.env == old(self).env);
                    assert(self.module == old(self).module);
                    assert(self.const_types == old(self).const_types);
                }
            },
            // a rule without a body was rejected by the resolver
            RuleKind::External { .. } => {},
        }
    }

    /// One connection of a flow: the previous output type must be the input
    /// type of the rule or flow (E402).
    fn check_connect(&self, kind: &str, name: &str, input: &Type, output: &Type, can_fail: bool, current: &Type, span: Span, d: &mut Diagnostics) -> (t: Type)
        ensures
            t == *output,
            final(d).file() == old(d).file(),
            keeps(old(d).all(), final(d).all()),
            *current != *input ==> final(d).all().len() > old(d).all().len() && final(d).all()[old(d).all().len() as int].code == Code::E402,
            *current == *input && !can_fail ==> final(d).all() == old(d).all(),
    {
        if !current.same(input) {
            let c = self.env.display(current);
            let i = self.env.display(input);
            let mut m = cat6("前段の出力型 ", c.as_str(), " が ", kind, " `", name);
            m.append("` の入力型 ");
            m.append(i.as_str());
            m.append(" と一致しません");
            d.emit(codes::TYPE_FLOW_MISMATCH, span, m);
        }
        if can_fail {
            let what = cat4(kind, " `", name, "` の接続");
            self.mark_fail(span, what.as_str(), d);
        }
        output.copy()
    }

    /// A constant used as a step: only as the first value of a flow (E402).
    fn const_step(&self, t: Type, current: &Type, at_start: bool, span: Span, d: &mut Diagnostics) -> (r: Type)
        ensures
            r == t,
            final(d).file() == old(d).file(),
            keeps(old(d).all(), final(d).all()),
            at_start && *current == Type::Void ==> final(d).all() == old(d).all(),
            !(at_start && *current == Type::Void) ==> added_one(old(d).all(), final(d).all(),
                Code::E402, old(d).file(), span, "定数はフローの最初の値としてだけ使えます"@),
    {
        if !at_start || !current.same(&Type::Void) {
            d.emit(codes::TYPE_FLOW_MISMATCH, span, String::from_str("定数はフローの最初の値としてだけ使えます"));
            proof {
                assert(d.all().drop_last() =~= old(d).all());
            }
        }
        t
    }

    /// A step of a flow that names a rule, flow or constant.
    fn apply_flow_call(&self, path: &Vec<(String, Span)>, span: Span, current: Type, at_start: bool, d: &mut Diagnostics) -> (t: Type)
        requires
            self.wf(),
        ensures
            final(d).file() == old(d).file(),
            keeps(old(d).all(), final(d).all()),
            path@.len() == 0 ==> t == current && final(d).all() == old(d).all(),
            path@.len() == 1 ==> match lookup(self.env.modules@[self.module as int].rules@, path@[0].0@) {
                Some(info) => t == info.output && (current != info.input ==> final(d).all().len() > old(d).all().len()
                    && final(d).all()[old(d).all().len() as int].code == Code::E402),
                None => match lookup(self.env.modules@[self.module as int].flows@, path@[0].0@) {
                    Some(info) => t == info.output && (current != info.input ==> final(d).all().len() > old(d).all().len()
                        && final(d).all()[old(d).all().len() as int].code == Code::E402),
                    None => (exists|i: int| 0 <= i < self.const_types@.len() && (#[trigger] self.const_types@[i]).0 == self.module
                        && self.const_types@[i].1@ == path@[0].0@) ==> (!(at_start && current == Type::Void)
                        ==> has_code(final(d).all(), old(d).all().len() as int, Code::E402)),
                },
            },
            path@.len() == 2 ==> (lookup(self.env.modules@[self.module as int].aliases@, path@[0].0@) matches Some(ModuleRef::User(mid))
                ==> (!(path@[1].0@.len() > 0 && path@[1].0@[0] == '_') && mid < self.env.modules@.len() ==> match lookup(
                self.env.modules@[mid as int].rules@,
                path@[1].0@,
            ) {
                Some(info) => t == info.output && (current != info.input ==> has_code(
                    final(d).all(),
                    old(d).all().len() as int,
                    Code::E402,
                )),
                None => true,
            })),
    {
        if path.len() == 0 {
            return current;
        }
        let env = self.env;
        if path.len() == 1 {
            let name = &path[0].0;
            let name_span = path[0].1;
            let menv = &env.modules[self.module];
            if let Some(info) = menv.rule(name.as_str()) {
                return self.check_connect("R", name.as_str(), &info.input, &info.output, info.can_fail, &current, span, d);
            }
            if let Some(info) = menv.flow(name.as_str()) {
                return self.check_connect("F", name.as_str(), &info.input, &info.output, info.can_fail, &current, span, d);
            }
            if let Some(t) = self.const_type(self.module, name.as_str()) {
                return self.const_step(t, &current, at_start, span, d);
            }
            d.emit(codes::RESOLVE_UNDEFINED, name_span, cat3("R/F `", name.as_str(), "` は定義されていません"));
            return current;
        }
        let q = &path[0].0;
        match self.alias(q.as_str()) {
            Some(ModuleRef::Std(module)) => {
                if path.len() == 2 {
                    let fname = &path[1].0;
                    let fname_span = path[1].1;
                    let label = cat3(q.as_str(), ".", fname.as_str());
                    if let Some(b) = builtins::lookup(module, fname.as_str()) {
                        // a builtin of several arguments cannot be a step of a flow
                        let several = match stdsig::find_sig(&env.std_sigs, builtins::sig_name(b)) {
                            Some(sig) => sig.inputs.len() != 1,
                            None => false,
                        };
                        if several {
                            d.emit(
                                codes::TYPE_FLOW_MISMATCH,
                                span,
                                cat3("`", label.as_str(), "` は複数の引数を取るため、F のステップとしては使えません"),
                            );
                            return current;
                        }
                        let mut args: Vec<Type> = Vec::new();
                        args.push(current.copy());
                        match self.std_sig_check(b, label.as_str(), args.as_slice(), span, codes::TYPE_FLOW_MISMATCH, d) {
                            Some((out, can_fail)) => {
                                if can_fail {
                                    self.mark_fail(span, cat3("`", label.as_str(), "` の接続").as_str(), d);
                                }
                                return out;
                            },
                            None => {
                                return current;
                            },
                        }
                    }
                    if stdsig::find_sig(&env.std_sigs, fname.as_str()).is_some() {
                        d.emit_with_hint(
                            codes::RESOLVE_NOT_IMPLEMENTED,
                            span,
                            cat3("`", label.as_str(), "` は std.tcrf に宣言されていますが、この処理系では未実装です"),
                            String::from_str("std.tcrf のコメントで実装状態を確認できます"),
                        );
                        return current;
                    }
                    d.emit(codes::RESOLVE_UNDEFINED, fname_span, cat3("`", label.as_str(), "` は定義されていません"));
                    return current;
                }
                d.emit(codes::RESOLVE_UNDEFINED, span, cat3("`", q.as_str(), "` の下にさらに修飾は付けられません"));
                current
            },
            Some(ModuleRef::User(mid)) => {
                if path.len() != 2 {
                    d.emit(codes::RESOLVE_UNDEFINED, span, cat3("`", q.as_str(), "` の下にさらに修飾は付けられません"));
                    return current;
                }
                let fname = &path[1].0;
                let fname_span = path[1].1;
                if !self.require_public(fname.as_str(), fname_span, d) {
                    return current;
                }
                let label = cat3(q.as_str(), ".", fname.as_str());
                if mid < env.modules.len() {
                    if let Some(info) = env.modules[mid].rule(fname.as_str()) {
                        return self.check_connect("R", label.as_str(), &info.input, &info.output, info.can_fail, &current, span, d);
                    }
                    if let Some(info) = env.modules[mid].flow(fname.as_str()) {
                        return self.check_connect("F", label.as_str(), &info.input, &info.output, info.can_fail, &current, span, d);
                    }
                }
                if let Some(t) = self.const_type(mid, fname.as_str()) {
                    return self.const_step(t, &current, at_start, span, d);
                }
                d.emit(codes::RESOLVE_UNDEFINED, fname_span, cat3("`", label.as_str(), "` は定義されていません"));
                current
            },
            None => {
                d.emit(codes::RESOLVE_UNDEFINED, span, cat3("修飾名 `", q.as_str(), "` は import されていません"));
                current
            },
        }
    }

    /// Checks the steps of a flow from the type `start`; gives the final type.
    #[verifier::loop_isolation(false)]
    fn check_flow_steps(&mut self, steps: &Vec<FlowStep>, start: Type, at_start: bool, d: &mut Diagnostics) -> (t: Type)
        requires
            old(self).wf(),
        ensures
            unchanged(old(self), final(self)),
            final(d).file() == old(d).file(),
            keeps(old(d).all(), final(d).all()),
            steps@.len() == 0 ==> t == start && final(d).all() == old(d).all(),
            steps@.len() > 0 ==> (call_output(old(self).env.modules@[old(self).module as int], steps@.last()) matches Some(o) ==> t == o),
        decreases steps, 1int,
    {
        let mut current = start;
        let mut first = at_start;
        let mut k: usize = 0;
        while k < steps.len()
            invariant
                self.wf(),
                unchanged(old(self), self),
                d.file() == old(d).file(),
                keeps(old(d).all(), d.all()),
                k <= steps@.len(),
                k == 0 ==> current == start && d.all() == old(d).all(),
                k > 0 ==> (call_output(old(self).env.modules@[old(self).module as int], steps@[k - 1]) matches Some(o) ==> current == o),
            decreases steps@.len() - k,
        {
            proof {
                assert(decreases_to!(steps => steps@));
                assert(decreases_to!(steps@ => steps@[k as int]));
            }
            match &steps[k] {
                FlowStep::Initial(expr) => {
                    if !first || !current.same(&Type::Void) {
                        d.emit(codes::TYPE_FLOW_MISMATCH, expr.span(), String::from_str("値の構築はフローの先頭でだけできます"));
                    }
                    current = self.check_expr(expr, None, d);
                },
                FlowStep::Call { path, span } => {
                    current = self.apply_flow_call(path, *span, current, first, d);
                },
                FlowStep::Match { .. } => {
                    current = self.check_flow_match(&steps[k], current, d);
                },
            }
            first = false;
            k = k + 1;
        }
        current
    }

    /// Checks a `match` step of a flow over the current ADT value: each branch
    /// continues from the constructor's payload, all branches end in one type.
    #[verifier::loop_isolation(false)]
    fn check_flow_match(&mut self, step: &FlowStep, current: Type, d: &mut Diagnostics) -> (t: Type)
        requires
            old(self).wf(),
        ensures
            unchanged(old(self), final(self)),
            final(d).file() == old(d).file(),
            keeps(old(d).all(), final(d).all()),
            !(*step is Match) ==> t == current && final(d).all() == old(d).all(),
            *step is Match && !is_adt_type(*old(self).env, current) ==> t == current
                && one_more(old(d).all(), final(d).all(), Code::E401),
            step matches FlowStep::Match { arms, .. } ==> (arms@.len() == 0 ==> t == current),
            step matches FlowStep::Match { arms, .. } ==> (is_adt_type(*old(self).env, current) && arms@.len() > 0
                && arms@[0].steps@.len() > 0 ==> (call_output(old(self).env.modules@[old(self).module as int],
                arms@[0].steps@.last()) matches Some(o) ==> t == o)),
            step matches FlowStep::Match { arms, span } ==> (adt_ctors(*old(self).env, current) matches Some(cs)
                ==> (flow_missing_names(cs, arms@).len() > 0 ==> {
                &&& final(d).all().len() > old(d).all().len()
                &&& final(d).all().last().code == Code::E404
                &&& final(d).all().last().span == *span
                &&& final(d).all().last().message@ == "match がすべてのコンストラクタを網羅していません: "@
                    + joined(flow_missing_names(cs, arms@), ", "@) + " が不足しています"@
            })),
        decreases step, 0int,
    {
        let (arms, span) = match step {
            FlowStep::Match { arms, span } => (arms, *span),
            _ => {
                return current;
            },
        };
        let ctors: Option<Vec<(String, Option<Type>)>> = match &current {
            Type::Named(id) => match self.env.get_type(*id) {
                Some(def) => match &def.kind {
                    TypeDefKind::Adt(cs) => Some(copy_ctors(cs)),
                    _ => None,
                },
                None => None,
            },
            _ => None,
        };
        let ctors = match ctors {
            Some(c) => c,
            None => {
                let shown = self.env.display(&current);
                d.emit(
                    codes::TYPE_MISMATCH,
                    span,
                    cat3("F の match は代数データ型に対してだけ使えますが、現在の型は ", shown.as_str(), " です"),
                );
                return current;
            },
        };
        let mut seen: Vec<String> = Vec::new();
        let mut result: Option<Type> = None;
        let mut k: usize = 0;
        while k < arms.len()
            invariant
                self.wf(),
                unchanged(old(self), self),
                d.file() == old(d).file(),
                keeps(old(d).all(), d.all()),
                k <= arms@.len(),
                k == 0 <==> result is None,
                k > 0 && arms@[0].steps@.len() > 0 ==> (call_output(old(self).env.modules@[old(self).module as int],
                    arms@[0].steps@.last()) matches Some(o) ==> result == Some(o)),
                forall|x: Seq<char>| #[trigger] seen_has(seen@, x) <==> (exists|j: int| 0 <= j < k
                    && (#[trigger] arms@[j]).ctor@ == x && lookup(ctors@, x) is Some),
            decreases arms@.len() - k,
        {
            let arm = &arms[k];
            proof {
                assert(decreases_to!(arms => arms@));
                assert(decreases_to!(arms@ => arms@[k as int]));
            }
            let payload: Option<Type> = match find(&ctors, arm.ctor.as_str()) {
                Some(ci) => {
                    if has_name(&seen, arm.ctor.as_str()) {
                        d.emit(codes::TYPE_MATCH_DUPLICATE, arm.ctor_span, cat3("分岐 `", arm.ctor.as_str(), "` が重複しています"));
                    }
                    let ghost sb = seen@;
                    seen.push(arm.ctor.clone());
                    proof {
                        assert forall|x: Seq<char>| #[trigger] seen_has(seen@, x) <==> (seen_has(sb, x) || arms@[k as int].ctor@ == x) by {
                            if seen_has(seen@, x) {
                                let i = choose|i: int| 0 <= i < seen@.len() && (#[trigger] seen@[i])@ == x;
                                if i < sb.len() {
                                    assert(sb[i] == seen@[i]);
                                }
                            }
                            if seen_has(sb, x) {
                                let i = choose|i: int| 0 <= i < sb.len() && (#[trigger] sb[i])@ == x;
                                assert(seen@[i] == sb[i]);
                            }
                            if arms@[k as int].ctor@ == x {
                                assert(seen@[sb.len() as int] == arms@[k as int].ctor);
                            }
                        }
                    }
                    match &ctors[ci].1 {
                        Some(p) => Some(p.copy()),
                        None => None,
                    }
                },
                None => {
                    let shown = self.env.display(&current);
                    d.emit(
                        codes::TYPE_MISMATCH,
                        arm.ctor_span,
                        cat5("", shown.as_str(), " にコンストラクタ `", arm.ctor.as_str(), "` はありません"),
                    );
                    None
                },
            };
            let start = match payload {
                Some(p) => p,
                None => Type::Void,
            };
            let t = self.check_flow_steps(&arm.steps, start, true, d);
            match &result {
                None => {
                    result = Some(t);
                },
                Some(prev) => {
                    if !prev.same(&t) {
                        let a = self.env.display(prev);
                        let b = self.env.display(&t);
                        d.emit(
                            codes::TYPE_FLOW_MISMATCH,
                            arm.ctor_span,
                            cat4("match 分岐の最終出力型が一致しません: ", a.as_str(), " と ", b.as_str()),
                        );
                    }
                },
            }
            proof {
                assert forall|x: Seq<char>| #[trigger] seen_has(seen@, x) <==> (exists|j: int| 0 <= j < k + 1
                    && (#[trigger] arms@[j]).ctor@ == x && lookup(ctors@, x) is Some) by {
                    if exists|j: int| 0 <= j < k + 1 && (#[trigger] arms@[j]).ctor@ == x && lookup(ctors@, x) is Some {
                        let j = choose|j: int| 0 <= j < k + 1 && (#[trigger] arms@[j]).ctor@ == x && lookup(ctors@, x) is Some;
                        if j < k {
                            assert(exists|j2: int| 0 <= j2 < k && (#[trigger] arms@[j2]).ctor@ == x && lookup(ctors@, x) is Some);
                        }
                    }
                }
            }
            k = k + 1;
        }
        proof {
            if let Some(cs) = adt_ctors(*old(self).env, current) {
                unseen_flow_missing_agree(ctors@, cs, seen@, arms@, ctors@);
            }
        }
        if let Some(missing) = missing_ctors(&ctors, &seen) {
            d.emit(
                codes::TYPE_MATCH_NOT_EXHAUSTIVE,
                span,
                cat3("match がすべてのコンストラクタを網羅していません: ", missing.as_str(), " が不足しています"),
            );
        }
        match result {
            Some(r) => r,
            None => current,
        }
    }

    /// Checks a flow: its steps from the input type, and that the final type
    /// is the declared output type (E402).
    fn check_flow(&mut self, decl: &crate::ast::FlowDecl, info: &crate::types::FlowInfo, d: &mut Diagnostics)
        requires
            old(self).wf(),
        ensures
            unchanged(old(self), final(self)),
            final(d).file() == old(d).file(),
            keeps(old(d).all(), final(d).all()),
            decl.steps@.len() == 0 ==> (info.input == info.output ==> final(d).all() == old(d).all())
                && (info.input != info.output ==> one_more(old(d).all(), final(d).all(), Code::E402)),
            decl.steps@.len() > 0 ==> (call_output(old(self).env.modules@[old(self).module as int], decl.steps@.last())
                matches Some(o) ==> (o != info.output ==> final(d).all().len() > old(d).all().len()
                && final(d).all().last().code == Code::E402)),
    {
        let final_t = self.check_flow_steps(&decl.steps, info.input.copy(), true, d);
        if !final_t.same(&info.output) {
            let a = self.env.display(&final_t);
            let b = self.env.display(&info.output);
            let mut m = cat6("F `", decl.name.as_str(), "` の最終出力型 ", a.as_str(), " がシグネチャの出力型 ", b.as_str());
            m.append(" と一致しません");
            d.emit(codes::TYPE_FLOW_MISMATCH, decl.name_span, m);
        }
    }
}

/// Type-checks all loaded modules: first the constants (modules in
/// dependency order, each module's constants in its dependency order), then
/// every rule and flow. Earlier diagnostics are kept; a transition rule
/// between types that are not usage types of one inner type is reported
/// (E413), and so is a rule whose body is one call of a rule of its module
/// with other than one argument (E401) or of a rule that can fail when the
/// caller does not declare `! Error` (E410), or one `match` on its parameter
/// that misses constructors (E404).
pub fn typecheck(loaded: &Loaded, env: &Env, d: &mut Diagnostics)
    ensures
        keeps(old(d).all(), final(d).all()),
        forall|q: int, i: int|
            0 <= q < env.order@.len() && #[trigger] bad_transition(loaded, env, env.order@[q] as int, i)
                ==> reported(final(d).all(), Code::E413, env.order@[q]),
        forall|q: int, i: int, c: Code|
            0 <= q < env.order@.len() && #[trigger] body_call_fault(loaded, env, env.order@[q] as int, i, c)
                ==> has_code(final(d).all(), old(d).all().len() as int, c),
        forall|q: int, i: int|
            0 <= q < env.order@.len() && #[trigger] body_match_fault(loaded, env, env.order@[q] as int, i)
                ==> has_code(final(d).all(), old(d).all().len() as int, Code::E404),
{
    let mut const_types: Vec<(usize, String, Type)> = Vec::new();
    let mut q: usize = 0;
    while q < env.order.len()
        invariant
            keeps(old(d).all(), d.all()),
        decreases env.order@.len() - q,
    {
        let m = env.order[q];
        if m < env.modules.len() && m < loaded.units.len() {
            d.set_file(m);
            let module = &env.modules[m];
            let decls = &loaded.units[m].program.decls;
            let mut k: usize = 0;
            while k < module.const_order.len()
                invariant
                    m < env.modules@.len(),
                    keeps(old(d).all(), d.all()),
                decreases module.const_order@.len() - k,
            {
                let name = &module.const_order[k];
                if let Some(di) = module.konst(name.as_str()) {
                    if di < decls.len() {
                        if let Decl::Const(c) = &decls[di] {
                            let ty = {
                                let mut ck = Checker {
                                    env,
                                    module: m,
                                    const_types: &const_types,
                                    scopes: Vec::new(),
                                    declared_can_fail: true,
                                    is_main: false,
                                };
                                ck.check_expr(&c.value, None, d)
                            };
                            let mut found: Option<usize> = None;
                            let mut j: usize = 0;
                            while j < const_types.len()
                                invariant
                                    found matches Some(x) ==> x < const_types@.len(),
                                decreases const_types@.len() - j,
                            {
                                if const_types[j].0 == m && str_eq(const_types[j].1.as_str(), name.as_str()) {
                                    found = Some(j);
                                    break;
                                }
                                j = j + 1;
                            }
                            match found {
                                Some(j) => const_types.set(j, (m, name.clone(), ty)),
                                None => const_types.push((m, name.clone(), ty)),
                            }
                        }
                    }
                }
                k = k + 1;
            }
        }
        q = q + 1;
    }
    let ghost mid = d.all();
    let mut q: usize = 0;
    while q < env.order.len()
        invariant
            keeps(old(d).all(), mid),
            keeps(old(d).all(), d.all()),
            forall|q2: int, i2: int|
                0 <= q2 < q && #[trigger] bad_transition(loaded, env, env.order@[q2] as int, i2)
                    ==> reported(d.all(), Code::E413, env.order@[q2]),
            forall|q2: int, i2: int, c: Code|
                0 <= q2 < q && #[trigger] body_call_fault(loaded, env, env.order@[q2] as int, i2, c)
                    ==> has_code(d.all(), old(d).all().len() as int, c),
            forall|q2: int, i2: int|
                0 <= q2 < q && #[trigger] body_match_fault(loaded, env, env.order@[q2] as int, i2)
                    ==> has_code(d.all(), old(d).all().len() as int, Code::E404),
        decreases env.order@.len() - q,
    {
        let m = env.order[q];
        let ghost entry = d.all();
        if m < env.modules.len() && m < loaded.units.len() {
            d.set_file(m);
            let decls = &loaded.units[m].program.decls;
            let mut i: usize = 0;
            while i < decls.len()
                invariant
                    m < env.modules@.len(),
                    m < loaded.units@.len(),
                    m == env.order@[q as int],
                    q < env.order@.len(),
                    decls == &loaded.units@[m as int].program.decls,
                    d.file() == m,
                    keeps(old(d).all(), d.all()),
                    keeps(entry, d.all()),
                    forall|q2: int, i2: int|
                        0 <= q2 < q && #[trigger] bad_transition(loaded, env, env.order@[q2] as int, i2)
                            ==> reported(entry, Code::E413, env.order@[q2]),
                    forall|i2: int| 0 <= i2 < i && #[trigger] bad_transition(loaded, env, m as int, i2)
                        ==> reported(d.all(), Code::E413, m),
                    forall|q2: int, i2: int, c: Code|
                        0 <= q2 < q && #[trigger] body_call_fault(loaded, env, env.order@[q2] as int, i2, c)
                            ==> has_code(entry, old(d).all().len() as int, c),
                    forall|i2: int, c: Code| 0 <= i2 < i && #[trigger] body_call_fault(loaded, env, m as int, i2, c)
                        ==> has_code(d.all(), old(d).all().len() as int, c),
                    forall|q2: int, i2: int|
                        0 <= q2 < q && #[trigger] body_match_fault(loaded, env, env.order@[q2] as int, i2)
                            ==> has_code(entry, old(d).all().len() as int, Code::E404),
                    forall|i2: int| 0 <= i2 < i && #[trigger] body_match_fault(loaded, env, m as int, i2)
                        ==> has_code(d.all(), old(d).all().len() as int, Code::E404),
                decreases decls@.len() - i,
            {
                let ghost before = d.all();
                match &decls[i] {
                    Decl::Rule(r) => {
                        if let Some(info) = env.modules[m].rule(r.name.as_str()) {
                            if info.decl == i {
                                let mut ck = Checker {
                                    env,
                                    module: m,
                                    const_types: &const_types,
                                    scopes: Vec::new(),
                                    declared_can_fail: info.can_fail,
                                    is_main: false,
                                };
                                ck.check_rule(r, info, d);
                            }
                        }
                    },
                    Decl::Flow(f) => {
                        if let Some(info) = env.modules[m].flow(f.name.as_str()) {
                            if info.decl == i {
                                let is_main = m == ENTRY && str_is(&f.name, "main");
                                let mut ck = Checker {
                                    env,
                                    module: m,
                                    const_types: &const_types,
                                    scopes: Vec::new(),
                                    declared_can_fail: info.can_fail,
                                    is_main,
                                };
                                ck.check_flow(f, info, d);
                            }
                        }
                    },
                    _ => {},
                }
                proof {
                    assert forall|i2: int| 0 <= i2 < i + 1 && #[trigger] body_match_fault(loaded, env, m as int, i2)
                        implies has_code(d.all(), old(d).all().len() as int, Code::E404) by {
                        if i2 < i {
                            lemma_has_code_kept(before, d.all(), old(d).all().len() as int, Code::E404);
                        } else {
                            let w = choose|w: int| before.len() <= w < d.all().len() && (#[trigger] d.all()[w]).code == Code::E404;
                            assert(old(d).all().len() <= w);
                        }
                    }
                    assert forall|i2: int, c: Code| 0 <= i2 < i + 1 && #[trigger] body_call_fault(loaded, env, m as int, i2, c)
                        implies has_code(d.all(), old(d).all().len() as int, c) by {
                        if i2 < i {
                            lemma_has_code_kept(before, d.all(), old(d).all().len() as int, c);
                        } else {
                            let w = choose|w: int| before.len() <= w < d.all().len() && (#[trigger] d.all()[w]).code == c;
                            assert(old(d).all().len() <= w);
                        }
                    }
                    assert forall|i2: int| 0 <= i2 < i + 1 && #[trigger] bad_transition(loaded, env, m as int, i2)
                        implies reported(d.all(), Code::E413, m) by {
                        if i2 < i {
                            lemma_reported_kept(before, d.all(), Code::E413, m);
                        } else {
                            let last = d.all().len() - 1;
                            assert(d.all()[last].code == Code::E413 && d.all()[last].file == m);
                        }
                    }
                }
                i = i + 1;
            }
        }
        proof {
            assert forall|q2: int, i2: int|
                0 <= q2 < q + 1 && #[trigger] body_match_fault(loaded, env, env.order@[q2] as int, i2)
                    implies has_code(d.all(), old(d).all().len() as int, Code::E404) by {
                if q2 < q {
                    lemma_has_code_kept(entry, d.all(), old(d).all().len() as int, Code::E404);
                } else if !(m < env.modules.len() && m < loaded.units.len()) {
                    assert(!body_match_fault(loaded, env, m as int, i2));
                }
            }
            assert forall|q2: int, i2: int, c: Code|
                0 <= q2 < q + 1 && #[trigger] body_call_fault(loaded, env, env.order@[q2] as int, i2, c)
                    implies has_code(d.all(), old(d).all().len() as int, c) by {
                if q2 < q {
                    lemma_has_code_kept(entry, d.all(), old(d).all().len() as int, c);
                } else if !(m < env.modules.len() && m < loaded.units.len()) {
                    assert(!body_call_fault(loaded, env, m as int, i2, c));
                }
            }
            assert forall|q2: int, i2: int|
                0 <= q2 < q + 1 && #[trigger] bad_transition(loaded, env, env.order@[q2] as int, i2)
                    implies reported(d.all(), Code::E413, env.order@[q2]) by {
                if q2 < q {
                    lemma_reported_kept(entry, d.all(), Code::E413, env.order@[q2]);
                } else if !(m < env.modules.len() && m < loaded.units.len()) {
                    assert(!bad_transition(loaded, env, m as int, i2));
                }
            }
        }
        q = q + 1;
    }
}

} // verus!
