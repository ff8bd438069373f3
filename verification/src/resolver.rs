//! Name resolution: the imports, type definitions and top-level names
//! (C / R / F) of each module are checked and collected into an `Env`.
//! Modules are processed in dependency order, so the namespace of every
//! imported module is complete when a module that imports it is resolved.
use crate::ast::{Decl, Expr, RuleKind, TypeDeclKind, TypeExpr};
use crate::builtins::has_range_input;
use crate::builtins::StdModule;
use crate::diagnostics::{added_only, codes, keeps, Code, Diagnostics};
use crate::loader::{Loaded, ModuleUnit};
use crate::span::Span;
use crate::stdsig;
use crate::text::{chars_of, law_text_lt_transitive, law_text_order, text_lt};
use crate::text_fmt::{cat3, cat5, str_eq};
use crate::types::{
    find, first_match, has_key, lemma_lookup_push, lemma_lookup_push_kept, lookup, CtorDef, Env, FieldDef, FlowInfo, ModuleEnv, ModuleRef,
    RuleInfo, Type, TypeDef, TypeDefKind, TypeId, ENTRY,
};
use vstd::prelude::*;
use vstd::string::*;

verus! {

/// The builtin scalar type a name denotes.
pub open spec fn spec_builtin_type(name: Seq<char>) -> Option<Type> {
    if name == "Int"@ {
        Some(Type::Int)
    } else if name == "Decimal"@ {
        Some(Type::Decimal)
    } else if name == "Text"@ {
        Some(Type::Text)
    } else if name == "Char"@ {
        Some(Type::Char)
    } else if name == "Bool"@ {
        Some(Type::Bool)
    } else {
        None
    }
}

/// The builtin scalar type a name denotes.
pub fn builtin_type(name: &str) -> (r: Option<Type>)
    ensures
        r == spec_builtin_type(name@),
{
    if str_eq(name, "Int") {
        Some(Type::Int)
    } else if str_eq(name, "Decimal") {
        Some(Type::Decimal)
    } else if str_eq(name, "Text") {
        Some(Type::Text)
    } else if str_eq(name, "Char") {
        Some(Type::Char)
    } else if str_eq(name, "Bool") {
        Some(Type::Bool)
    } else {
        None
    }
}

/// The type a named type expression written in module `m` denotes, if it resolves.
pub open spec fn spec_named_type(env: &Env, m: int, qualifier: Option<String>, name: Seq<char>) -> Option<Type> {
    match qualifier {
        None => match spec_builtin_type(name) {
            Some(b) => Some(b),
            None => match lookup(env.modules@[m].type_names@, name) {
                Some(id) => Some(Type::Named(id)),
                None => None,
            },
        },
        Some(q) => match lookup(env.modules@[m].aliases@, q@) {
            None => None,
            Some(ModuleRef::Std(module)) => if name == "RangeInput"@ && (module == StdModule::Std
                || module == StdModule::Range) {
                match lookup(env.std_types@, "RangeInput"@) {
                    Some(id) => Some(Type::Named(id)),
                    None => None,
                }
            } else {
                None
            },
            Some(ModuleRef::User(mid)) => if mid < env.modules@.len() {
                match lookup(env.modules@[mid as int].type_names@, name) {
                    Some(id) => Some(Type::Named(id)),
                    None => None,
                }
            } else {
                None
            },
        },
    }
}

/// The resolved type of a type expression written in module `m`; a part that
/// does not resolve stands as `Void`.
pub open spec fn spec_resolve_type(env: &Env, m: int, t: TypeExpr) -> Type
    decreases t,
{
    match t {
        TypeExpr::Void { .. } => Type::Void,
        TypeExpr::List { elem, .. } => Type::List(Box::new(spec_resolve_type(env, m, *elem))),
        TypeExpr::Named { qualifier, name, .. } => match spec_named_type(env, m, qualifier, name@) {
            Some(ty) => ty,
            None => Type::Void,
        },
    }
}

/// Every name in the type expression resolves.
pub open spec fn spec_type_resolves(env: &Env, m: int, t: TypeExpr) -> bool
    decreases t,
{
    match t {
        TypeExpr::Void { .. } => true,
        TypeExpr::List { elem, .. } => spec_type_resolves(env, m, *elem),
        TypeExpr::Named { qualifier, name, .. } => spec_named_type(env, m, qualifier, name@) is Some,
    }
}

/// Resolves a type expression written in module `m`. A name that does not
/// resolve is reported (E301) and stands as `Void`.
pub fn resolve_type_expr(env: &Env, m: usize, t: &TypeExpr, diags: &mut Diagnostics) -> (r: Type)
    requires
        m < env.modules@.len(),
    ensures
        r == spec_resolve_type(env, m as int, *t),
        final(diags).file() == old(diags).file(),
        keeps(old(diags).all(), final(diags).all()),
        added_only(final(diags).all(), old(diags).all().len() as int, Code::E301),
        spec_type_resolves(env, m as int, *t) <==> final(diags).all().len() == old(
            diags,
        ).all().len(),
    decreases t,
{
    match t {
        TypeExpr::Void { .. } => Type::Void,
        TypeExpr::List { elem, .. } => {
            let inner = resolve_type_expr(env, m, &**elem, diags);
            Type::List(Box::new(inner))
        },
        TypeExpr::Named { qualifier: None, name, span } => {
            match builtin_type(name.as_str()) {
                Some(b) => b,
                None => match env.modules[m].type_id(name.as_str()) {
                    Some(id) => Type::Named(id),
                    None => {
                        diags.emit(
                            codes::RESOLVE_UNDEFINED,
                            *span,
                            cat3("型 `", name.as_str(), "` は定義されていません"),
                        );
                        Type::Void
                    },
                },
            }
        },
        TypeExpr::Named { qualifier: Some(q), name, span } => {
            let target = match env.modules[m].alias(q.as_str()) {
                Some(t) => t,
                None => {
                    diags.emit_with_hint(
                        codes::RESOLVE_UNDEFINED,
                        *span,
                        cat3("修飾名 `", q.as_str(), "` は import されていません"),
                        cat3("`import std` などで `", q.as_str(), "` を導入してください"),
                    );
                    return Type::Void;
                },
            };
            let found = match target {
                ModuleRef::Std(module) => {
                    if str_eq(name.as_str(), "RangeInput") && has_range_input(module) {
                        env.std_type("RangeInput")
                    } else {
                        None
                    }
                },
                ModuleRef::User(mid) => {
                    if mid < env.modules.len() {
                        env.modules[mid].type_id(name.as_str())
                    } else {
                        None
                    }
                },
            };
            match found {
                Some(id) => Type::Named(id),
                None => {
                    diags.emit(
                        codes::RESOLVE_UNDEFINED,
                        *span,
                        cat5("型 `", q.as_str(), ".", name.as_str(), "` は定義されていません"),
                    );
                    Type::Void
                },
            }
        },
    }
}

/// No two entries of an association list share a name.
pub open spec fn unique_keys<V>(l: Seq<(String, V)>) -> bool {
    forall|i: int, j: int|
        #![trigger l[i], l[j]]
        0 <= i < j < l.len() ==> l[i].0@ != l[j].0@
}

/// Is `name` one of `names`.
fn contains_name(names: &Vec<String>, name: &str) -> (b: bool)
    ensures
        b == exists|i: int| 0 <= i < names@.len() && (#[trigger] names@[i])@ == name@,
{
    let mut i: usize = 0;
    while i < names.len()
        invariant
            i <= names@.len(),
            forall|j: int| 0 <= j < i ==> (#[trigger] names@[j])@ != name@,
        decreases names@.len() - i,
    {
        if str_eq(names[i].as_str(), name) {
            return true;
        }
        i = i + 1;
    }
    false
}

/// Enters the import aliases of module `m`: an alias (or the last part of the
/// module path) that is already taken is reported (E303) and skipped.
fn resolve_imports(unit: &ModuleUnit, m: usize, env: &mut Env, diags: &mut Diagnostics)
    requires
        m < old(env).modules@.len(),
        unique_keys(old(env).modules@[m as int].aliases@),
    ensures
        final(env).modules@.len() == old(env).modules@.len(),
        final(env).types@ == old(env).types@,
        final(env).std_types@ == old(env).std_types@,
        forall|k: int| 0 <= k < old(env).modules@.len() && k != m ==> final(env).modules@[k] == old(env).modules@[k],
        final(env).modules@[m as int].type_names@ == old(env).modules@[m as int].type_names@,
        final(env).modules@[m as int].ctors@ == old(env).modules@[m as int].ctors@,
        final(env).module_names@ == old(env).module_names@,
        final(env).order@ == old(env).order@,
        unique_keys(final(env).modules@[m as int].aliases@),
        final(diags).file() == old(diags).file(),
        keeps(old(diags).all(), final(diags).all()),
        added_only(final(diags).all(), old(diags).all().len() as int, Code::E303),
        forall|k: Seq<char>| #[trigger] lookup(old(env).modules@[m as int].aliases@, k) is Some
            ==> lookup(final(env).modules@[m as int].aliases@, k) == lookup(old(env).modules@[m as int].aliases@, k),
        forall|j: int| 0 <= j < unit.program.imports@.len() && j < unit.import_targets@.len()
            && unit.import_targets@[j] is Some && (#[trigger] unit.program.imports@[j]).path@.len() > 0
            ==> lookup(final(env).modules@[m as int].aliases@, import_qual(unit.program.imports@[j])) is Some,
        imports_clash(*unit) ==> crate::typecheck::has_code(final(diags).all(), old(diags).all().len() as int, Code::E303),
{
    let imports = &unit.program.imports;
    let targets = &unit.import_targets;
    let mut i: usize = 0;
    proof {
        reveal(clash_before);
    }
    while i < imports.len() && i < targets.len()
        invariant
            forall|k: Seq<char>| #[trigger] lookup(old(env).modules@[m as int].aliases@, k) is Some
                ==> lookup(env.modules@[m as int].aliases@, k) == lookup(old(env).modules@[m as int].aliases@, k),
            forall|j: int| 0 <= j < i && j < imports@.len() && j < targets@.len()
                && targets@[j] is Some && (#[trigger] imports@[j]).path@.len() > 0
                ==> lookup(env.modules@[m as int].aliases@, import_qual(imports@[j])) is Some,
            m < env.modules@.len(),
            env.modules@.len() == old(env).modules@.len(),
            env.types@ == old(env).types@,
            env.std_types@ == old(env).std_types@,
            forall|k: int| 0 <= k < old(env).modules@.len() && k != m ==> env.modules@[k] == old(env).modules@[k],
            env.modules@[m as int].type_names@ == old(env).modules@[m as int].type_names@,
            env.modules@[m as int].ctors@ == old(env).modules@[m as int].ctors@,
            env.module_names@ == old(env).module_names@,
            env.order@ == old(env).order@,
            unique_keys(env.modules@[m as int].aliases@),
            diags.file() == old(diags).file(),
            keeps(old(diags).all(), diags.all()),
            added_only(diags.all(), old(diags).all().len() as int, Code::E303),
            i <= imports@.len(),
            imports@ == unit.program.imports@,
            targets@ == unit.import_targets@,
            clash_before(*unit, i as int) ==> crate::typecheck::has_code(diags.all(), old(diags).all().len() as int, Code::E303),
        decreases imports@.len() - i,
    {
        let ghost di = diags.all();
        let im = &imports[i];
        // an import that could not be resolved was reported by the loader
        if let Some(target) = targets[i] {
            if im.path.len() > 0 {
                let qual = match &im.alias {
                    Some(a) => a.clone(),
                    None => im.path[im.path.len() - 1].clone(),
                };
                if has_key(&env.modules[m].aliases, qual.as_str()) {
                    diags.emit(
                        codes::RESOLVE_IMPORT_CONFLICT,
                        im.span,
                        cat3("修飾名 `", qual.as_str(), "` は既に導入されています"),
                    );
                } else {
                    let ghost before = env.modules@[m as int].aliases@;
                    proof {
                        lemma_lookup_push_kept(before, (qual, target));
                    }
                    env.modules[m].aliases.push((qual, target));
                    assert(env.modules@[m as int].aliases@ == before.push((qual, target)));
                }
            }
        }
        proof {
            reveal(clash_before);
            if clash_before(*unit, i + 1) {
                if clash_before(*unit, i as int) {
                    lemma_has_code_keeps(di, diags.all(), old(diags).all().len() as int, Code::E303);
                } else {
                    let (j1, j2) = choose|j1: int, j2: int|
                        #![trigger imports@[j1], imports@[j2]]
                        0 <= j1 < j2 < i + 1 && j2 < imports@.len() && j2 < targets@.len() && targets@[j1] is Some
                            && targets@[j2] is Some && imports@[j1].path@.len() > 0 && imports@[j2].path@.len() > 0
                            && import_qual(imports@[j1]) == import_qual(imports@[j2]);
                    if j2 < i {
                        assert(clash_before(*unit, i as int));
                    }
                    assert(j2 == i);
                    assert(lookup(env.modules@[m as int].aliases@, import_qual(imports@[j1])) is Some);
                    assert(diags.all()[di.len() as int].code == Code::E303);
                }
            }
        }
        i = i + 1;
    }
    proof {
        reveal(clash_before);
        if imports_clash(*unit) {
            let (j1, j2) = choose|j1: int, j2: int|
                #![trigger imports@[j1], imports@[j2]]
                0 <= j1 < j2 < imports@.len() && j2 < imports@.len() && j2 < targets@.len() && targets@[j1] is Some
                    && targets@[j2] is Some && imports@[j1].path@.len() > 0 && imports@[j2].path@.len() > 0
                    && import_qual(imports@[j1]) == import_qual(imports@[j2]);
            assert(clash_before(*unit, i as int));
        }
    }
}

/// Two of the first `i` imports of the unit that were resolved bind the same
/// qualifier.
#[verifier::opaque]
pub open spec fn clash_before(unit: ModuleUnit, i: int) -> bool {
    let ims = unit.program.imports@;
    let ts = unit.import_targets@;
    exists|j1: int, j2: int|
        #![trigger ims[j1], ims[j2]]
        0 <= j1 < j2 < i && j2 < ims.len() && j2 < ts.len() && ts[j1] is Some && ts[j2] is Some && ims[j1].path@.len() > 0
            && ims[j2].path@.len() > 0 && import_qual(ims[j1]) == import_qual(ims[j2])
}

/// Two resolved imports of the unit bind the same qualifier.
pub open spec fn imports_clash(unit: ModuleUnit) -> bool {
    clash_before(unit, unit.program.imports@.len() as int)
}

/// The qualifier an import binds: its alias, else the last segment of its path.
pub open spec fn import_qual(im: crate::ast::ImportDecl) -> Seq<char> {
    match im.alias {
        Some(a) => a@,
        None => im.path@.last()@,
    }
}

/// Registers the builtin std type `RangeInput { first Int, last Int }`.
fn register_std_types(env: &mut Env)
    ensures
        final(env).modules@ == old(env).modules@,
        final(env).module_names@ == old(env).module_names@,
        final(env).order@ == old(env).order@,
        final(env).types@.len() == old(env).types@.len() + 1,
        lookup(old(env).std_types@, "RangeInput"@) is None ==> lookup(final(env).std_types@, "RangeInput"@) == Some(
            old(env).types@.len() as usize,
        ),
{
    let id = env.types.len();
    let mut fields: Vec<FieldDef> = Vec::new();
    fields.push(FieldDef { name: String::from_str("first"), ty: Type::Int });
    fields.push(FieldDef { name: String::from_str("last"), ty: Type::Int });
    env.types.push(
        TypeDef {
            name: String::from_str("RangeInput"),
            module: ENTRY,
            span: Span::new(0, 0),
            kind: TypeDefKind::Record(fields),
        },
    );
    let key = String::from_str("RangeInput");
    proof {
        reveal_strlit("RangeInput");
        if lookup(env.std_types@, "RangeInput"@) is None {
            lemma_lookup_push(env.std_types@, (key, id), "RangeInput"@);
        }
    }
    env.std_types.push((key, id));
}

/// What holds of a module's namespace between the resolution steps.
pub open spec fn step_frame(before: &Env, after: &Env, m: int) -> bool {
    &&& after.modules@.len() == before.modules@.len()
    &&& after.std_types@ == before.std_types@
    &&& forall|k: int| 0 <= k < before.modules@.len() && k != m ==> after.modules@[k] == before.modules@[k]
    &&& after.modules@[m].aliases@ == before.modules@[m].aliases@
    &&& after.module_names@ == before.module_names@
    &&& after.order@ == before.order@
}

/// Registers the type names defined in module `m`, each with a placeholder
/// definition. A builtin type name, or a name already defined in the module,
/// is reported (E302) and skipped.
fn collect_type_names(unit: &ModuleUnit, m: usize, env: &mut Env, diags: &mut Diagnostics)
    requires
        m < old(env).modules@.len(),
        unique_keys(old(env).modules@[m as int].type_names@),
    ensures
        step_frame(old(env), final(env), m as int),
        final(env).types@.len() >= old(env).types@.len(),
        unique_keys(final(env).modules@[m as int].type_names@),
        final(env).modules@[m as int].ctors@ == old(env).modules@[m as int].ctors@,
        final(diags).file() == old(diags).file(),
        keeps(old(diags).all(), final(diags).all()),
        added_only(final(diags).all(), old(diags).all().len() as int, Code::E302),
        forall|k: Seq<char>| #[trigger] lookup(old(env).modules@[m as int].type_names@, k) is Some
            ==> lookup(final(env).modules@[m as int].type_names@, k) == lookup(old(env).modules@[m as int].type_names@, k),
        forall|j: int| 0 <= j < unit.program.decls@.len() ==> (#[trigger] unit.program.decls@[j] matches Decl::Type(t)
            ==> (spec_builtin_type(t.name@) is None ==> lookup(final(env).modules@[m as int].type_names@, t.name@) is Some)),
{
    let decls = &unit.program.decls;
    let mut i: usize = 0;
    while i < decls.len()
        invariant
            m < env.modules@.len(),
            step_frame(old(env), env, m as int),
            env.types@.len() >= old(env).types@.len(),
            unique_keys(env.modules@[m as int].type_names@),
            env.modules@[m as int].ctors@ == old(env).modules@[m as int].ctors@,
            diags.file() == old(diags).file(),
            keeps(old(diags).all(), diags.all()),
            added_only(diags.all(), old(diags).all().len() as int, Code::E302),
            i <= decls@.len(),
            forall|k: Seq<char>| #[trigger] lookup(old(env).modules@[m as int].type_names@, k) is Some
                ==> lookup(env.modules@[m as int].type_names@, k) == lookup(old(env).modules@[m as int].type_names@, k),
            forall|j: int| 0 <= j < i ==> (#[trigger] decls@[j] matches Decl::Type(t)
                ==> (spec_builtin_type(t.name@) is None ==> lookup(env.modules@[m as int].type_names@, t.name@) is Some)),
        decreases decls@.len() - i,
    {
        if let Decl::Type(t) = &decls[i] {
            if builtin_type(t.name.as_str()).is_some() {
                diags.emit(
                    codes::RESOLVE_DUPLICATE,
                    t.name_span,
                    cat3("組み込み型 `", t.name.as_str(), "` は再定義できません"),
                );
            } else if has_key(&env.modules[m].type_names, t.name.as_str()) {
                diags.emit(
                    codes::RESOLVE_DUPLICATE,
                    t.name_span,
                    cat3("型 `", t.name.as_str(), "` は既に定義されています"),
                );
            } else {
                let id = env.types.len();
                env.types.push(
                    TypeDef {
                        name: t.name.clone(),
                        module: m,
                        span: t.name_span,
                        kind: TypeDefKind::Broken,
                    },
                );
                let ghost before = env.modules@[m as int].type_names@;
                let key = t.name.clone();
                env.modules[m].type_names.push((key, id));
                assert(env.modules@[m as int].type_names@ == before.push((key, id)));
                proof {
                    assert forall|k: Seq<char>| #[trigger] lookup(env.modules@[m as int].type_names@, k) == if k == key@ {
                        Some(id)
                    } else {
                        lookup(before, k)
                    } by {
                        lemma_lookup_push(before, (key, id), k);
                    }
                }
            }
        }
        i = i + 1;
    }
}

/// Resolves the bodies of the types defined in module `m` (the first
/// definition of each name) into their definitions.
fn resolve_type_bodies(unit: &ModuleUnit, m: usize, env: &mut Env, diags: &mut Diagnostics)
    requires
        m < old(env).modules@.len(),
    ensures
        final(env).modules@ == old(env).modules@,
        final(env).module_names@ == old(env).module_names@,
        final(env).order@ == old(env).order@,
        final(env).std_types@ == old(env).std_types@,
        final(env).types@.len() == old(env).types@.len(),
        final(diags).file() == old(diags).file(),
        keeps(old(diags).all(), final(diags).all()),
        forall|id: int| 0 <= id < old(env).types@.len() ==> {
            &&& (#[trigger] final(env).types@[id]).name == old(env).types@[id].name
            &&& final(env).types@[id].module == old(env).types@[id].module
            &&& final(env).types@[id].span == old(env).types@[id].span
            &&& final(env).types@[id].kind != old(env).types@[id].kind ==> exists|j: int| 0 <= j < unit.program.decls@.len()
                && #[trigger] body_of(unit.program.decls@[j], old(env).modules@[m as int].type_names@, old(env).types@, id,
                final(env).types@[id].kind)
        },
{
    let decls = &unit.program.decls;
    let mut i: usize = 0;
    while i < decls.len()
        invariant
            m < env.modules@.len(),
            env.modules@ == old(env).modules@,
            env.module_names@ == old(env).module_names@,
            env.order@ == old(env).order@,
            env.std_types@ == old(env).std_types@,
            env.types@.len() == old(env).types@.len(),
            diags.file() == old(diags).file(),
            keeps(old(diags).all(), diags.all()),
            i <= decls@.len(),
            forall|id: int| 0 <= id < old(env).types@.len() ==> {
                &&& (#[trigger] env.types@[id]).name == old(env).types@[id].name
                &&& env.types@[id].module == old(env).types@[id].module
                &&& env.types@[id].span == old(env).types@[id].span
                &&& env.types@[id].kind != old(env).types@[id].kind ==> exists|j: int| 0 <= j < i
                    && #[trigger] body_of(decls@[j], old(env).modules@[m as int].type_names@, old(env).types@, id,
                    env.types@[id].kind)
            },
        decreases decls@.len() - i,
    {
        if let Decl::Type(t) = &decls[i] {
            if let Some(id) = env.modules[m].type_id(t.name.as_str()) {
                // a later definition of the same name was reported; the first one owns the id
                if id < env.types.len() && env.types[id].span == t.name_span {
                    let kind = match &t.kind {
                        TypeDeclKind::Usage(inner) => TypeDefKind::Usage(
                            resolve_type_expr(env, m, inner, diags),
                        ),
                        TypeDeclKind::Record(fields) => {
                            let mut seen: Vec<String> = Vec::new();
                            let mut out: Vec<FieldDef> = Vec::new();
                            let mut k: usize = 0;
                            while k < fields.len()
                                invariant
                                    m < env.modules@.len(),
                                    diags.file() == old(diags).file(),
                                    keeps(old(diags).all(), diags.all()),
                                    k <= fields@.len(),
                                    out@.len() <= k,
                                decreases fields@.len() - k,
                            {
                                let f = &fields[k];
                                if contains_name(&seen, f.name.as_str()) {
                                    diags.emit(
                                        codes::RESOLVE_DUPLICATE,
                                        f.name_span,
                                        cat3("フィールド `", f.name.as_str(), "` が重複しています"),
                                    );
                                } else {
                                    seen.push(f.name.clone());
                                    let ty = resolve_type_expr(env, m, &f.ty, diags);
                                    out.push(FieldDef { name: f.name.clone(), ty });
                                }
                                k = k + 1;
                            }
                            TypeDefKind::Record(out)
                        },
                        TypeDeclKind::Adt(ctors) => {
                            let mut out: Vec<CtorDef> = Vec::new();
                            let mut k: usize = 0;
                            while k < ctors.len()
                                invariant
                                    m < env.modules@.len(),
                                    diags.file() == old(diags).file(),
                                    keeps(old(diags).all(), diags.all()),
                                    k <= ctors@.len(),
                                    out@.len() == k,
                                    forall|q: int| 0 <= q < k ==> (#[trigger] out@[q]).name@ == ctors@[q].name@,
                                decreases ctors@.len() - k,
                            {
                                let c = &ctors[k];
                                let payload = match &c.payload {
                                    Some(p) => Some(resolve_type_expr(env, m, p, diags)),
                                    None => None,
                                };
                                out.push(CtorDef { name: c.name.clone(), payload });
                                k = k + 1;
                            }
                            TypeDefKind::Adt(out)
                        },
                    };
                    let ghost prev = env.types@;
                    proof {
                        assert(body_of(decls@[i as int], old(env).modules@[m as int].type_names@, old(env).types@, id as int, kind));
                    }
                    env.types[id].kind = kind;
                    proof {
                        assert forall|q: int| 0 <= q < old(env).types@.len() implies {
                            &&& (#[trigger] env.types@[q]).name == old(env).types@[q].name
                            &&& env.types@[q].module == old(env).types@[q].module
                            &&& env.types@[q].span == old(env).types@[q].span
                            &&& env.types@[q].kind != old(env).types@[q].kind ==> exists|j: int| 0 <= j < i + 1
                                && #[trigger] body_of(decls@[j], old(env).modules@[m as int].type_names@, old(env).types@, q,
                                env.types@[q].kind)
                        } by {
                            if q != id {
                                assert(env.types@[q] == prev[q]);
                            }
                        }
                    }
                }
            }
        }
        i = i + 1;
    }
}

/// Registers the constructors of the ADTs defined in module `m`. A name already
/// taken by a constructor or a type of the module is reported (E302) and skipped.
fn collect_ctors(unit: &ModuleUnit, m: usize, env: &mut Env, diags: &mut Diagnostics)
    requires
        m < old(env).modules@.len(),
        unique_keys(old(env).modules@[m as int].ctors@),
    ensures
        step_frame(old(env), final(env), m as int),
        final(env).types@ == old(env).types@,
        final(env).modules@[m as int].type_names@ == old(env).modules@[m as int].type_names@,
        unique_keys(final(env).modules@[m as int].ctors@),
        forall|i: int| 0 <= i < final(env).modules@[m as int].ctors@.len()
            ==> lookup(final(env).modules@[m as int].type_names@, (#[trigger] final(env).modules@[m as int].ctors@[i]).0@) is None
            || i < old(env).modules@[m as int].ctors@.len(),
        final(diags).file() == old(diags).file(),
        keeps(old(diags).all(), final(diags).all()),
        added_only(final(diags).all(), old(diags).all().len() as int, Code::E302),
        forall|k: Seq<char>| #[trigger] lookup(old(env).modules@[m as int].ctors@, k) is Some
            ==> lookup(final(env).modules@[m as int].ctors@, k) == lookup(old(env).modules@[m as int].ctors@, k),
        forall|j: int| 0 <= j < unit.program.decls@.len() ==> #[trigger] ctors_bound(unit.program.decls@[j],
            final(env).types@, final(env).modules@[m as int].type_names@, final(env).modules@[m as int].ctors@, 
            unit.program.decls@[j]->Type_0.kind->Adt_0@.len() as int),
{
    let decls = &unit.program.decls;
    let mut i: usize = 0;
    while i < decls.len()
        invariant
            m < env.modules@.len(),
            step_frame(old(env), env, m as int),
            env.types@ == old(env).types@,
            env.modules@[m as int].type_names@ == old(env).modules@[m as int].type_names@,
            unique_keys(env.modules@[m as int].ctors@),
            forall|i: int| 0 <= i < env.modules@[m as int].ctors@.len()
                ==> lookup(env.modules@[m as int].type_names@, (#[trigger] env.modules@[m as int].ctors@[i]).0@) is None
                || i < old(env).modules@[m as int].ctors@.len(),
            diags.file() == old(diags).file(),
            keeps(old(diags).all(), diags.all()),
            added_only(diags.all(), old(diags).all().len() as int, Code::E302),
            i <= decls@.len(),
            forall|k: Seq<char>| #[trigger] lookup(old(env).modules@[m as int].ctors@, k) is Some
                ==> lookup(env.modules@[m as int].ctors@, k) == lookup(old(env).modules@[m as int].ctors@, k),
            forall|j: int| 0 <= j < i ==> #[trigger] ctors_bound(decls@[j], env.types@, env.modules@[m as int].type_names@,
                env.modules@[m as int].ctors@, decls@[j]->Type_0.kind->Adt_0@.len() as int),
        decreases decls@.len() - i,
    {
        let ghost c0 = env.modules@[m as int].ctors@;
        if let Decl::Type(t) = &decls[i] {
            if let TypeDeclKind::Adt(ctors) = &t.kind {
                if let Some(id) = env.modules[m].type_id(t.name.as_str()) {
                    if id < env.types.len() && env.types[id].span == t.name_span {
                        let mut k: usize = 0;
                        while k < ctors.len()
                            invariant
                                m < env.modules@.len(),
                                step_frame(old(env), env, m as int),
                                env.types@ == old(env).types@,
                                env.modules@[m as int].type_names@ == old(env).modules@[m as int].type_names@,
                                unique_keys(env.modules@[m as int].ctors@),
                                forall|i: int| 0 <= i < env.modules@[m as int].ctors@.len()
                                    ==> lookup(env.modules@[m as int].type_names@, (#[trigger] env.modules@[m as int].ctors@[i]).0@) is None
                                    || i < old(env).modules@[m as int].ctors@.len(),
                                diags.file() == old(diags).file(),
                                keeps(old(diags).all(), diags.all()),
                                added_only(diags.all(), old(diags).all().len() as int, Code::E302),
                                k <= ctors@.len(),
                                i < decls@.len(),
                                decls@[i as int] == Decl::Type(*t),
                                t.kind == TypeDeclKind::Adt(*ctors),
                                forall|q: Seq<char>| #[trigger] lookup(c0, q) is Some
                                    ==> lookup(env.modules@[m as int].ctors@, q) == lookup(c0, q),
                                ctors_bound(decls@[i as int], env.types@, env.modules@[m as int].type_names@,
                                    env.modules@[m as int].ctors@, k as int),
                            decreases ctors@.len() - k,
                        {
                            let ghost kb = env.modules@[m as int].ctors@;
                            let c = &ctors[k];
                            if has_key(&env.modules[m].ctors, c.name.as_str()) || has_key(
                                &env.modules[m].type_names,
                                c.name.as_str(),
                            ) {
                                diags.emit(
                                    codes::RESOLVE_DUPLICATE,
                                    c.name_span,
                                    cat3("名前 `", c.name.as_str(), "` は既に使われています"),
                                );
                            } else {
                                let ghost before = env.modules@[m as int].ctors@;
                                let key = c.name.clone();
                                env.modules[m].ctors.push((key, (id, k)));
                                assert(env.modules@[m as int].ctors@ == before.push((key, (id, k))));
                                proof {
                                    lemma_push_lookups(before, (key, (id, k)));
                                }
                            }
                            proof {
                                lemma_ctors_bound_grow(decls@[i as int], env.types@, env.modules@[m as int].type_names@,
                                    kb, env.modules@[m as int].ctors@, k as int, true);
                            }
                            k = k + 1;
                        }
                    }
                }
            }
        }
        proof {
            assert forall|j: int| 0 <= j < i + 1 implies #[trigger] ctors_bound(decls@[j], env.types@,
                env.modules@[m as int].type_names@, env.modules@[m as int].ctors@, decls@[j]->Type_0.kind->Adt_0@.len() as int) by {
                if j < i {
                    lemma_ctors_bound_grow(decls@[j], env.types@, env.modules@[m as int].type_names@, c0,
                        env.modules@[m as int].ctors@, decls@[j]->Type_0.kind->Adt_0@.len() as int, false);
                }
            }
        }
        i = i + 1;
    }
}

/// Registers the constants, rules and flows of module `m` with their resolved
/// signatures. The three kinds share one namespace: a name defined twice is
/// reported (E302) and its later definitions skipped. A rule without a body is
/// reported (E310): only std.tcrf may declare one.
fn collect_values(unit: &ModuleUnit, m: usize, env: &mut Env, diags: &mut Diagnostics)
    requires
        m < old(env).modules@.len(),
    ensures
        step_frame(old(env), final(env), m as int),
        final(env).types@ == old(env).types@,
        final(env).modules@[m as int].type_names@ == old(env).modules@[m as int].type_names@,
        final(env).modules@[m as int].ctors@ == old(env).modules@[m as int].ctors@,
        final(diags).file() == old(diags).file(),
        keeps(old(diags).all(), final(diags).all()),
        forall|j: int| 0 <= j < unit.program.decls@.len() ==> (#[trigger] declared_value(unit.program.decls@[j]) matches Some(n)
            ==> value_bound(final(env).modules@[m as int], n)),
{
    let decls = &unit.program.decls;
    let mut taken: Vec<String> = Vec::new();
    let mut i: usize = 0;
    while i < decls.len()
        invariant
            m < env.modules@.len(),
            step_frame(old(env), env, m as int),
            env.types@ == old(env).types@,
            env.modules@[m as int].type_names@ == old(env).modules@[m as int].type_names@,
            env.modules@[m as int].ctors@ == old(env).modules@[m as int].ctors@,
            diags.file() == old(diags).file(),
            keeps(old(diags).all(), diags.all()),
            i <= decls@.len(),
            forall|q: int| 0 <= q < taken@.len() ==> value_bound(env.modules@[m as int], (#[trigger] taken@[q])@),
            forall|j: int| 0 <= j < i ==> (#[trigger] declared_value(decls@[j]) matches Some(n)
                ==> value_bound(env.modules@[m as int], n)),
        decreases decls@.len() - i,
    {
        let ghost before = env.modules@[m as int];
        match &decls[i] {
            Decl::Const(c) => {
                if contains_name(&taken, c.name.as_str()) {
                    report_taken(c.name.as_str(), c.name_span, diags);
                } else {
                    taken.push(c.name.clone());
                    let key = c.name.clone();
                    proof {
                        lemma_lookup_push_kept(before.consts@, (key, i));
                    }
                    env.modules[m].consts.push((key, i));
                    proof {
                        lemma_bound_grows(before, env.modules@[m as int]);
                    }
                }
            },
            Decl::Rule(r) => {
                let is_external = match &r.kind {
                    RuleKind::External { .. } => true,
                    _ => false,
                };
                if is_external {
                    diags.emit_with_hint(
                        codes::RESOLVE_EXTERNAL_RULE,
                        r.name_span,
                        String::from_str(
                            "本体のない R 宣言は標準ライブラリ宣言ファイル (std.tcrf) でだけ使えます",
                        ),
                        String::from_str("R には本体 (束縛の列と最終式) が必要です"),
                    );
                } else if contains_name(&taken, r.name.as_str()) {
                    report_taken(r.name.as_str(), r.name_span, diags);
                } else {
                    taken.push(r.name.clone());
                    let info = match &r.kind {
                        RuleKind::Normal { input, output, can_fail, .. } => {
                            let it = resolve_type_expr(env, m, input, diags);
                            let ot = resolve_type_expr(env, m, output, diags);
                            RuleInfo {
                                decl: i,
                                input: it,
                                output: ot,
                                can_fail: *can_fail,
                                transition: false,
                            }
                        },
                        RuleKind::Transition { input, output } => {
                            let it = resolve_type_expr(env, m, input, diags);
                            let ot = resolve_type_expr(env, m, output, diags);
                            RuleInfo { decl: i, input: it, output: ot, can_fail: false, transition: true }
                        },
                        RuleKind::External { .. } => {
                            RuleInfo {
                                decl: i,
                                input: Type::Void,
                                output: Type::Void,
                                can_fail: false,
                                transition: false,
                            }
                        },
                    };
                    let key = r.name.clone();
                    proof {
                        lemma_lookup_push_kept(before.rules@, (key, info));
                    }
                    env.modules[m].rules.push((key, info));
                    proof {
                        lemma_bound_grows(before, env.modules@[m as int]);
                    }
                }
            },
            Decl::Flow(f) => {
                if contains_name(&taken, f.name.as_str()) {
                    report_taken(f.name.as_str(), f.name_span, diags);
                } else {
                    taken.push(f.name.clone());
                    let info = match &f.signature {
                        Some(sig) => {
                            let it = resolve_type_expr(env, m, &sig.input, diags);
                            let ot = resolve_type_expr(env, m, &sig.output, diags);
                            FlowInfo {
                                decl: i,
                                input: it,
                                output: ot,
                                can_fail: sig.can_fail,
                                has_signature: true,
                            }
                        },
                        None => FlowInfo {
                            decl: i,
                            input: Type::Void,
                            output: Type::Void,
                            can_fail: false,
                            has_signature: false,
                        },
                    };
                    let key = f.name.clone();
                    proof {
                        lemma_lookup_push_kept(before.flows@, (key, info));
                    }
                    env.modules[m].flows.push((key, info));
                    proof {
                        lemma_bound_grows(before, env.modules@[m as int]);
                    }
                }
            },
            Decl::Type(_) => {},
        }
        i = i + 1;
    }
}

/// The name a declaration binds in the namespace of values: a constant, a
/// flow, or a rule with a body.
pub open spec fn declared_value(d: Decl) -> Option<Seq<char>> {
    match d {
        Decl::Const(c) => Some(c.name@),
        Decl::Rule(r) => if r.kind is External {
            None
        } else {
            Some(r.name@)
        },
        Decl::Flow(f) => Some(f.name@),
        Decl::Type(_) => None,
    }
}

/// `name` is bound as a constant, rule or flow of the module.
pub open spec fn value_bound(menv: ModuleEnv, name: Seq<char>) -> bool {
    lookup(menv.consts@, name) is Some || lookup(menv.rules@, name) is Some || lookup(menv.flows@, name) is Some
}

/// A module whose constants, rules and flows keep every binding keeps every bound value name.
proof fn lemma_bound_grows(a: ModuleEnv, b: ModuleEnv)
    requires
        forall|k: Seq<char>| #[trigger] lookup(a.consts@, k) is Some ==> lookup(b.consts@, k) is Some,
        forall|k: Seq<char>| #[trigger] lookup(a.rules@, k) is Some ==> lookup(b.rules@, k) is Some,
        forall|k: Seq<char>| #[trigger] lookup(a.flows@, k) is Some ==> lookup(b.flows@, k) is Some,
    ensures
        forall|n: Seq<char>| #[trigger] value_bound(a, n) ==> value_bound(b, n),
{
}

fn report_taken(name: &str, span: Span, diags: &mut Diagnostics)
    ensures
        final(diags).file() == old(diags).file(),
        final(diags).all().len() == old(diags).all().len() + 1,
        keeps(old(diags).all(), final(diags).all()),
        final(diags).all().last().code == Code::E302,
{
    diags.emit(codes::RESOLVE_DUPLICATE, span, cat3("名前 `", name, "` は既に定義されています"));
}

/// Checks that a constant's right-hand side holds only literals, type
/// constructions, references to constants and pure builtin operators (E307,
/// E301 for an unknown name), and collects the names of the module's own
/// constants it refers to.
#[verifier::loop_isolation(false)]
fn walk_const_expr(e: &Expr, env: &Env, m: usize, diags: &mut Diagnostics, refs: &mut Vec<String>)
    requires
        m < env.modules@.len(),
    ensures
        final(diags).file() == old(diags).file(),
        keeps(old(diags).all(), final(diags).all()),
        forall|i: int| 0 <= i < old(refs)@.len() ==> final(refs)@[i] == old(refs)@[i],
        forall|i: int| old(refs)@.len() <= i < final(refs)@.len()
            ==> lookup(env.modules@[m as int].consts@, (#[trigger] final(refs)@[i])@) is Some,
        final(refs)@.len() >= old(refs)@.len(),
        const_refs(*e, env.modules@[m as int].consts@) matches Some(rs) ==> final(refs)@ == old(refs)@ + rs,
        e is Call || e is At || e is When || e is Match ==> final(diags).all().len() == old(diags).all().len() + 1
            && final(diags).all().last().code == Code::E307,
        breaks_const(*e) ==> crate::typecheck::has_code(final(diags).all(), old(diags).all().len() as int, Code::E307),
        e matches Expr::Name { path, .. } ==> (path@.len() == 1 ==> {
            let menv = env.modules@[m as int];
            let name = path@[0].0@;
            &&& lookup(menv.consts@, name) is Some ==> final(diags).all() == old(diags).all()
            &&& lookup(menv.consts@, name) is None && (lookup(menv.rules@, name) is Some || lookup(menv.flows@, name) is Some)
                ==> final(diags).all().len() == old(diags).all().len() + 1 && final(diags).all().last().code == Code::E307
            &&& lookup(menv.consts@, name) is None && lookup(menv.rules@, name) is None && lookup(menv.flows@, name) is None
                ==> final(diags).all().len() == old(diags).all().len() + 1 && final(diags).all().last().code == Code::E301
        }),
    decreases e,
{
    let ghost d0 = diags.all();
    match e {
        Expr::IntLit(..) | Expr::DecimalLit(..) | Expr::TextLit(..) | Expr::CharLit(..)
        | Expr::BoolLit(..) | Expr::VoidLit(..) | Expr::Empty { .. } => {},
        Expr::Name { path, span } => {
            let menv = &env.modules[m];
            if path.len() == 1 {
                let name = &path[0].0;
                if has_key(&menv.consts, name.as_str()) {
                    refs.push(name.clone());
                } else if has_key(&menv.rules, name.as_str()) || has_key(&menv.flows, name.as_str()) {
                    diags.emit(
                        codes::RESOLVE_CONST_CALL,
                        *span,
                        String::from_str("C の右辺で R/F は使えません"),
                    );
                } else {
                    diags.emit(
                        codes::RESOLVE_UNDEFINED,
                        *span,
                        cat3("定数 `", name.as_str(), "` は定義されていません"),
                    );
                }
            } else if path.len() == 2 {
                // a public constant of an imported module may be referred to
                match menv.alias(path[0].0.as_str()) {
                    Some(ModuleRef::User(mid)) => {
                        let name = &path[1].0;
                        if crate::text_fmt::starts_with_underscore(name.as_str()) {
                            diags.emit_with_hint(
                                codes::RESOLVE_UNDEFINED,
                                path[1].1,
                                cat3("`", name.as_str(), "` はモジュール外に公開されていません"),
                                String::from_str("アンダースコア開始のトップレベル名は非公開です"),
                            );
                        } else if mid >= env.modules.len() || !has_key(
                            &env.modules[mid].consts,
                            name.as_str(),
                        ) {
                            diags.emit(
                                codes::RESOLVE_CONST_CALL,
                                *span,
                                String::from_str(
                                    "C の右辺で参照できるモジュール名は公開定数だけです",
                                ),
                            );
                        }
                        // constants of other modules are always evaluated first (dependency order)

                    },
                    _ => {
                        diags.emit(
                            codes::RESOLVE_CONST_CALL,
                            *span,
                            String::from_str(
                                "C の右辺ではリテラル・型構築・既存 C の参照・純粋な組み込み演算だけを使えます",
                            ),
                        );
                    },
                }
            } else {
                diags.emit(
                    codes::RESOLVE_CONST_CALL,
                    *span,
                    String::from_str(
                        "C の右辺ではリテラル・型構築・既存 C の参照・純粋な組み込み演算だけを使えます",
                    ),
                );
            }
        },
        Expr::Construct { arg, .. } => {
            if let Some(a) = arg {
                walk_const_expr(&**a, env, m, diags, refs);
            }
        },
        Expr::From { value, .. } => walk_const_expr(&**value, env, m, diags, refs),
        Expr::Record { fields, .. } => {
            let mut k: usize = 0;
            while k < fields.len()
                invariant
                    m < env.modules@.len(),
                    diags.file() == old(diags).file(),
                    keeps(old(diags).all(), diags.all()),
                    forall|i: int| 0 <= i < old(refs)@.len() ==> refs@[i] == old(refs)@[i],
                    forall|i: int| old(refs)@.len() <= i < refs@.len()
                        ==> lookup(env.modules@[m as int].consts@, (#[trigger] refs@[i])@) is Some,
                    refs@.len() >= old(refs)@.len(),
                decreases fields@.len() - k,
            {
                proof {
                    assert(decreases_to!(fields => fields@));
                    assert(decreases_to!(fields@ => fields@[k as int]));
                }
                walk_const_expr(&fields[k].value, env, m, diags, refs);
                k = k + 1;
            }
        },
        Expr::ListConstruct { elems, .. } => {
            let mut k: usize = 0;
            while k < elems.len()
                invariant
                    m < env.modules@.len(),
                    diags.file() == old(diags).file(),
                    keeps(old(diags).all(), diags.all()),
                    forall|i: int| 0 <= i < old(refs)@.len() ==> refs@[i] == old(refs)@[i],
                    forall|i: int| old(refs)@.len() <= i < refs@.len()
                        ==> lookup(env.modules@[m as int].consts@, (#[trigger] refs@[i])@) is Some,
                    refs@.len() >= old(refs)@.len(),
                decreases elems@.len() - k,
            {
                proof {
                    assert(decreases_to!(elems => elems@));
                    assert(decreases_to!(elems@ => elems@[k as int]));
                }
                walk_const_expr(&elems[k], env, m, diags, refs);
                k = k + 1;
            }
        },
        Expr::Unary { operand, .. } => walk_const_expr(&**operand, env, m, diags, refs),
        Expr::Binary { left, right, .. } => {
            let ghost r0 = refs@;
            walk_const_expr(&**left, env, m, diags, refs);
            let ghost r1 = refs@;
            let ghost d1 = diags.all();
            walk_const_expr(&**right, env, m, diags, refs);
            proof {
                if breaks_const(**left) {
                    lemma_has_code_keeps(d1, diags.all(), d0.len() as int, Code::E307);
                }
                if breaks_const(**right) {
                    let k = choose|k: int| d1.len() <= k < diags.all().len() && (#[trigger] diags.all()[k]).code == Code::E307;
                    assert(d0.len() <= k);
                }
                let consts = env.modules@[m as int].consts@;
                if let (Some(a), Some(b)) = (const_refs(**left, consts), const_refs(**right, consts)) {
                    assert(refs@ =~= r0 + (a + b));
                }
            }
        },
        Expr::Call { span, .. } | Expr::At { span, .. } => {
            diags.emit(
                codes::RESOLVE_CONST_CALL,
                *span,
                String::from_str("C の右辺で R/F や失敗しうる式は呼べません"),
            );
        },
        Expr::When { span, .. } | Expr::Match { span, .. } => {
            diags.emit(
                codes::RESOLVE_CONST_CALL,
                *span,
                String::from_str("C の右辺で when / match は使えません"),
            );
        },
    }
}

/// A constant's right-hand side holds a call, an `at`, a `when` or a `match`
/// somewhere outside records and list constructions.
pub open spec fn breaks_const(e: Expr) -> bool
    decreases e,
{
    match e {
        Expr::Call { .. } | Expr::At { .. } | Expr::When { .. } | Expr::Match { .. } => true,
        Expr::Construct { arg, .. } => match arg {
            Some(a) => breaks_const(*a),
            None => false,
        },
        Expr::From { value, .. } => breaks_const(*value),
        Expr::Unary { operand, .. } => breaks_const(*operand),
        Expr::Binary { left, right, .. } => breaks_const(*left) || breaks_const(*right),
        _ => false,
    }
}

/// The names of the module's own constants that a constant's right-hand side
/// refers to, in the order they are written (not stated through records and
/// list constructions).
pub open spec fn const_refs(e: Expr, consts: Seq<(String, usize)>) -> Option<Seq<String>>
    decreases e,
{
    match e {
        Expr::Name { path, .. } => if path@.len() == 1 && lookup(consts, path@[0].0@) is Some {
            Some(seq![path@[0].0])
        } else {
            Some(Seq::empty())
        },
        Expr::Construct { arg, .. } => match arg {
            Some(a) => const_refs(*a, consts),
            None => Some(Seq::empty()),
        },
        Expr::From { value, .. } => const_refs(*value, consts),
        Expr::Unary { operand, .. } => const_refs(*operand, consts),
        Expr::Binary { left, right, .. } => match (const_refs(*left, consts), const_refs(*right, consts)) {
            (Some(a), Some(b)) => Some(a + b),
            _ => None,
        },
        Expr::Record { .. } | Expr::ListConstruct { .. } => None,
        _ => Some(Seq::empty()),
    }
}

/// The type ids named in a list of fields, in order.
pub open spec fn fields_refs(fs: Seq<FieldDef>) -> Seq<usize>
    decreases fs.len(),
{
    if fs.len() == 0 {
        Seq::empty()
    } else {
        fields_refs(fs.drop_last()) + refs_of(fs.last().ty)
    }
}

/// The type ids named in the payloads of a list of constructors, in order.
pub open spec fn ctors_refs(cs: Seq<CtorDef>) -> Seq<usize>
    decreases cs.len(),
{
    if cs.len() == 0 {
        Seq::empty()
    } else {
        ctors_refs(cs.drop_last()) + match cs.last().payload {
            Some(p) => refs_of(p),
            None => Seq::empty(),
        }
    }
}

/// The type ids a type definition refers to directly (through lists).
pub open spec fn kind_refs(k: TypeDefKind) -> Seq<usize> {
    match k {
        TypeDefKind::Usage(inner) => refs_of(inner),
        TypeDefKind::Record(fields) => fields_refs(fields@),
        TypeDefKind::Adt(ctors) => ctors_refs(ctors@),
        TypeDefKind::Broken => Seq::empty(),
    }
}

/// The diagnostic is placed at the name of one of the types.
pub open spec fn about_type(d: crate::diagnostics::Diagnostic, types: Seq<TypeDef>) -> bool {
    exists|j: int| 0 <= j < types.len() && d.file == types[j].module && d.span == types[j].span
}

/// Declaration `j` is the first definition of a constant whose right-hand side
/// refers to the constant itself.
pub open spec fn refers_to_itself(d: Decl, j: int, consts: Seq<(String, usize)>) -> bool {
    match d {
        Decl::Const(c) => lookup(consts, c.name@) == Some(j as usize) && match const_refs(c.value, consts) {
            Some(rs) => exists|r: int| 0 <= r < rs.len() && rs[r]@ == c.name@,
            None => false,
        },
        _ => false,
    }
}

/// Declaration `j` is the first definition of a constant.
pub open spec fn first_const_decl(d: Decl, j: int, consts: Seq<(String, usize)>) -> bool {
    match d {
        Decl::Const(c) => lookup(consts, c.name@) == Some(j as usize),
        _ => false,
    }
}

/// A dependency entry lists its own name.
pub open spec fn names_itself(e: (String, Vec<String>)) -> bool {
    exists|r: int| 0 <= r < e.1@.len() && e.1@[r]@ == e.0@
}

/// Entry `k` of `deps` names itself among the constants it refers to (a name
/// stands for the first entry of that name).
pub open spec fn self_dep(deps: Seq<(String, Vec<String>)>, k: int) -> bool {
    0 <= k < deps.len() && exists|r: int| 0 <= r < deps[k].1@.len() && first_match(deps, deps[k].1@[r]@, k)
}

/// A name has one first entry.
proof fn lemma_first_match_unique<V>(list: Seq<(String, V)>, key: Seq<char>, i: int, j: int)
    requires
        first_match(list, key, i),
        first_match(list, key, j),
    ensures
        i == j,
{
    if i < j {
        assert(list[i].0@ != key);
    }
    if j < i {
        assert(list[j].0@ != key);
    }
}

/// `x` is the name of one of the dependency entries.
pub open spec fn from_deps(x: String, deps: Seq<(String, Vec<String>)>) -> bool {
    exists|j: int| 0 <= j < deps.len() && deps[j].0 == x
}

/// How many constants are still unvisited (state 0).
pub open spec fn unvisited(s: Seq<u8>) -> nat
    decreases s.len(),
{
    if s.len() == 0 {
        0
    } else {
        unvisited(s.drop_last()) + if s.last() == 0u8 {
            1nat
        } else {
            0nat
        }
    }
}

/// A visit never makes a visited constant unvisited again.
pub open spec fn visits_kept(a: Seq<u8>, b: Seq<u8>) -> bool {
    a.len() == b.len() && forall|k: int| 0 <= k < a.len() && a[k] != 0 ==> #[trigger] b[k] != 0
}

proof fn lemma_unvisited_mono(a: Seq<u8>, b: Seq<u8>)
    requires
        visits_kept(a, b),
    ensures
        unvisited(b) <= unvisited(a),
    decreases a.len(),
{
    if a.len() > 0 {
        assert(visits_kept(a.drop_last(), b.drop_last())) by {
            assert forall|k: int| 0 <= k < a.len() - 1 && a.drop_last()[k] != 0 implies #[trigger] b.drop_last()[k] != 0 by {
                assert(a[k] != 0);
            }
        }
        lemma_unvisited_mono(a.drop_last(), b.drop_last());
        assert(a.last() != 0 ==> b[a.len() - 1] != 0);
    }
}

proof fn lemma_unvisited_strict(a: Seq<u8>, b: Seq<u8>, idx: int)
    requires
        visits_kept(a, b),
        0 <= idx < a.len(),
        a[idx] == 0,
        b[idx] != 0,
    ensures
        unvisited(b) < unvisited(a),
    decreases a.len(),
{
    assert(visits_kept(a.drop_last(), b.drop_last())) by {
        assert forall|k: int| 0 <= k < a.len() - 1 && a.drop_last()[k] != 0 implies #[trigger] b.drop_last()[k] != 0 by {
            assert(a[k] != 0);
        }
    }
    assert(a.last() != 0 ==> b[a.len() - 1] != 0);
    if idx == a.len() - 1 {
        lemma_unvisited_mono(a.drop_last(), b.drop_last());
    } else {
        lemma_unvisited_strict(a.drop_last(), b.drop_last(), idx);
    }
}

/// Where `d` declares an algebraic data type whose name is bound to a type of
/// `types` declared at `d`'s name, each of its first `n` constructor names is
/// bound as a constructor or as a type name.
pub open spec fn ctors_bound(d: Decl, types: Seq<TypeDef>, type_names: Seq<(String, TypeId)>, ctors: Seq<(String, (TypeId, usize))>, n: int) -> bool {
    d matches Decl::Type(t) ==> (t.kind matches TypeDeclKind::Adt(cs) ==> (lookup(type_names, t.name@) matches Some(id)
        ==> (id < types.len() && types[id as int].span == t.name_span ==> forall|c: int| 0 <= c < n && c < cs@.len()
        ==> #[trigger] lookup(ctors, cs@[c].name@) is Some || lookup(type_names, cs@[c].name@) is Some)))
}

/// Declaration `d` is a type declaration whose name is bound to type `id`,
/// declared at that name, and `kind` has the shape `d` declares: a usage type,
/// a record of no more fields than written, or an ADT of the same constructors.
pub open spec fn body_of(d: Decl, type_names: Seq<(String, TypeId)>, types: Seq<TypeDef>, id: int, kind: TypeDefKind) -> bool {
    d matches Decl::Type(t) && lookup(type_names, t.name@) == Some(id as usize) && 0 <= id < types.len()
        && types[id].span == t.name_span && match t.kind {
        TypeDeclKind::Usage(_) => kind is Usage,
        TypeDeclKind::Record(fs) => kind matches TypeDefKind::Record(out) && out@.len() <= fs@.len(),
        TypeDeclKind::Adt(cs) => kind matches TypeDefKind::Adt(out) && out@.len() == cs@.len()
            && forall|q: int| 0 <= q < cs@.len() ==> (#[trigger] out@[q]).name@ == cs@[q].name@,
    }
}

/// Binding more constructors keeps `ctors_bound`; binding the next one extends it.
proof fn lemma_ctors_bound_grow(d: Decl, types: Seq<TypeDef>, tn: Seq<(String, TypeId)>, c_old: Seq<(String, (TypeId, usize))>,
    c_new: Seq<(String, (TypeId, usize))>, n: int, next_bound: bool)
    requires
        ctors_bound(d, types, tn, c_old, n),
        forall|q: Seq<char>| #[trigger] lookup(c_old, q) is Some ==> lookup(c_new, q) == lookup(c_old, q),
        next_bound ==> (d matches Decl::Type(t) && t.kind matches TypeDeclKind::Adt(cs) && 0 <= n < cs@.len()
            && (lookup(c_new, cs@[n].name@) is Some || lookup(tn, cs@[n].name@) is Some)),
    ensures
        ctors_bound(d, types, tn, c_new, n),
        next_bound ==> ctors_bound(d, types, tn, c_new, n + 1),
{
    if let Decl::Type(t) = d {
        if let TypeDeclKind::Adt(cs) = t.kind {
            if let Some(id) = lookup(tn, t.name@) {
                if id < types.len() && types[id as int].span == t.name_span {
                    assert forall|c: int| 0 <= c < n && c < cs@.len() implies #[trigger] lookup(c_new, cs@[c].name@) is Some
                        || lookup(tn, cs@[c].name@) is Some by {
                        if lookup(tn, cs@[c].name@) is None {
                            assert(lookup(c_old, cs@[c].name@) is Some);
                        }
                    }
                    if next_bound {
                        assert forall|c: int| 0 <= c < n + 1 && c < cs@.len() implies #[trigger] lookup(c_new, cs@[c].name@) is Some
                            || lookup(tn, cs@[c].name@) is Some by {
                            if c < n && lookup(tn, cs@[c].name@) is None {
                                assert(lookup(c_old, cs@[c].name@) is Some);
                            }
                        }
                    }
                }
            }
        }
    }
}

/// Pushing an entry with a new key binds that key and keeps every other lookup.
proof fn lemma_push_lookups<V>(before: Seq<(String, V)>, entry: (String, V))
    requires
        lookup(before, entry.0@) is None,
    ensures
        forall|k: Seq<char>| #[trigger] lookup(before.push(entry), k) == if k == entry.0@ {
            Some(entry.1)
        } else {
            lookup(before, k)
        },
{
    assert forall|k: Seq<char>| #[trigger] lookup(before.push(entry), k) == if k == entry.0@ {
        Some(entry.1)
    } else {
        lookup(before, k)
    } by {
        lemma_lookup_push(before, entry, k);
    }
}

/// The span of the name of the constant declared at `d`, or an empty span.
pub open spec fn const_span_at(decls: Seq<Decl>, d: int) -> Span {
    if 0 <= d < decls.len() {
        match decls[d] {
            Decl::Const(c) => c.name_span,
            _ => Span { start: 0, end: 0 },
        }
    } else {
        Span { start: 0, end: 0 }
    }
}

/// The span of the name of the flow declared at `d`, or an empty span.
pub open spec fn flow_span_at(decls: Seq<Decl>, d: int) -> Span {
    if 0 <= d < decls.len() {
        match decls[d] {
            Decl::Flow(f) => f.name_span,
            _ => Span { start: 0, end: 0 },
        }
    } else {
        Span { start: 0, end: 0 }
    }
}

/// The span of the name of the constant `name` of the module, or an empty span.
fn const_name_span(unit: &ModuleUnit, menv: &ModuleEnv, name: &str) -> (s: Span)
    ensures
        s == (match lookup(menv.consts@, name@) {
            Some(d) => const_span_at(unit.program.decls@, d as int),
            None => Span { start: 0, end: 0 },
        }),
{
    match menv.konst(name) {
        Some(d) => {
            if d < unit.program.decls.len() {
                match &unit.program.decls[d] {
                    Decl::Const(c) => c.name_span,
                    _ => Span::new(0, 0),
                }
            } else {
                Span::new(0, 0)
            }
        },
        None => Span::new(0, 0),
    }
}

/// Depth-first visit of the constant `deps[idx]` and the constants it refers
/// to; a constant reached again while it is being visited is a cycle (E306).
/// A constant is appended to `order` once all it depends on precede it.
fn visit(
    idx: usize,
    deps: &Vec<(String, Vec<String>)>,
    state: &mut Vec<u8>,
    order: &mut Vec<String>,
    unit: &ModuleUnit,
    menv: &ModuleEnv,
    diags: &mut Diagnostics,
)
    requires
        idx < deps@.len(),
        old(state)@.len() == deps@.len(),
    ensures
        visits_kept(old(state)@, final(state)@),
        final(diags).file() == old(diags).file(),
        keeps(old(diags).all(), final(diags).all()),
        added_only(final(diags).all(), old(diags).all().len() as int, Code::E306),
        forall|k: int| 0 <= k < old(state)@.len() ==> #[trigger] final(state)@[k] == old(state)@[k]
            || (old(state)@[k] == 0 && final(state)@[k] == 2),
        old(state)@[idx as int] == 0 ==> final(state)@[idx as int] == 2 && final(order)@.len() > old(order)@.len()
            && final(order)@.last() == deps@[idx as int].0,
        old(state)@[idx as int] == 1 ==> final(state)@ == old(state)@ && final(order)@ == old(order)@
            && final(diags).all().len() == old(diags).all().len() + 1,
        old(state)@[idx as int] != 0 && old(state)@[idx as int] != 1 ==> final(state)@ == old(state)@
            && final(order)@ == old(order)@ && final(diags).all() == old(diags).all(),
        final(order)@.len() >= old(order)@.len(),
        forall|k: int| 0 <= k < old(order)@.len() ==> #[trigger] final(order)@[k] == old(order)@[k],
        forall|k: int| old(order)@.len() <= k < final(order)@.len() ==> from_deps(#[trigger] final(order)@[k], deps@),
        forall|k: int| 0 <= k < old(state)@.len() && old(state)@[k] == 0 && final(state)@[k] != 0 && #[trigger] self_dep(deps@, k)
            ==> final(diags).all().len() > old(diags).all().len(),
        forall|k: int| 0 <= k < old(state)@.len() && old(state)@[k] == 0 && #[trigger] final(state)@[k] != 0
            ==> final(order)@.contains(deps@[k].0),
    decreases unvisited(old(state)@),
{
    if state[idx] != 0 && state[idx] != 1 {
        return;
    }
    if state[idx] == 1 {
        let name = &deps[idx].0;
        let span = const_name_span(unit, menv, name.as_str());
        diags.emit(
            codes::RESOLVE_CONST_CYCLE,
            span,
            cat3("定数 `", name.as_str(), "` の定義が循環しています"),
        );
        return;
    }
    let ghost start = state@;
    state.set(idx, 1);
    let rs = &deps[idx].1;
    let mut k: usize = 0;
    while k < rs.len()
        invariant
            idx < deps@.len(),
            state@.len() == deps@.len(),
            start == old(state)@,
            start[idx as int] == 0,
            state@[idx as int] != 0,
            visits_kept(start, state@),
            diags.file() == old(diags).file(),
            keeps(old(diags).all(), diags.all()),
            added_only(diags.all(), old(diags).all().len() as int, Code::E306),
            state@[idx as int] == 1,
            forall|q: int| 0 <= q < start.len() && q != idx ==> #[trigger] state@[q] == start[q]
                || (start[q] == 0 && state@[q] == 2),
            order@.len() >= old(order)@.len(),
            forall|q: int| 0 <= q < old(order)@.len() ==> #[trigger] order@[q] == old(order)@[q],
            forall|q: int| old(order)@.len() <= q < order@.len() ==> from_deps(#[trigger] order@[q], deps@),
            rs == deps@[idx as int].1,
            k <= rs@.len(),
            forall|q: int| 0 <= q < start.len() && q != idx && start[q] == 0 && state@[q] != 0 && #[trigger] self_dep(deps@, q)
                ==> diags.all().len() > old(diags).all().len(),
            (exists|r: int| 0 <= r < k && first_match(deps@, rs@[r]@, idx as int)) ==> diags.all().len() > old(diags).all().len(),
            forall|q: int| 0 <= q < start.len() && q != idx && start[q] == 0 && #[trigger] state@[q] != 0
                ==> order@.contains(deps@[q].0),
        decreases rs@.len() - k,
    {
        if let Some(j) = find(deps, rs[k].as_str()) {
            proof {
                lemma_unvisited_strict(start, state@, idx as int);
            }
            let ghost before = state@;
            let ghost order_before = order@;
            visit(j, deps, state, order, unit, menv, diags);
            proof {
                if first_match(deps@, rs@[k as int]@, idx as int) {
                    lemma_first_match_unique(deps@, rs@[k as int]@, idx as int, j as int);
                    assert(j == idx);
                }
                assert forall|q: int| 0 <= q < start.len() && q != idx && start[q] == 0 && state@[q] != 0
                    && #[trigger] self_dep(deps@, q) implies diags.all().len() > old(diags).all().len() by {
                    if before[q] == 0 {
                        assert(state@[q] != 0);
                    }
                }
                assert forall|q: int| 0 <= q < start.len() && q != idx && start[q] == 0 && #[trigger] state@[q] != 0
                    implies order@.contains(deps@[q].0) by {
                    if before[q] != 0 {
                        assert(order_before.contains(deps@[q].0));
                        let p = choose|p: int| 0 <= p < order_before.len() && order_before[p] == deps@[q].0;
                        assert(order@[p] == order_before[p]);
                    }
                }
            }
            assert(visits_kept(start, state@)) by {
                assert forall|q: int| 0 <= q < start.len() && start[q] != 0 implies #[trigger] state@[q] != 0 by {
                    assert(before[q] != 0);
                }
            }
        }
        k = k + 1;
    }
    let ghost before = state@;
    state.set(idx, 2);
    assert(visits_kept(start, state@)) by {
        assert forall|q: int| 0 <= q < start.len() && start[q] != 0 implies #[trigger] state@[q] != 0 by {
            assert(before[q] != 0);
        }
    }
    let ghost order_before = order@;
    order.push(deps[idx].0.clone());
    assert(from_deps(order@.last(), deps@)) by {
        assert(order@.last() == deps@[idx as int].0);
    }
    assert forall|q: int| 0 <= q < start.len() && start[q] == 0 && #[trigger] state@[q] != 0
        implies order@.contains(deps@[q].0) by {
        if q == idx {
            assert(order@[order@.len() - 1] == deps@[q].0);
        } else {
            assert(order_before.contains(deps@[q].0));
            let p = choose|p: int| 0 <= p < order_before.len() && order_before[p] == deps@[q].0;
            assert(order@[p] == order_before[p]);
        }
    }
}

/// `a` sorts before `b` (code point order, as `str` orders).
fn text_less(a: &str, b: &str) -> (r: bool)
    ensures
        r == text_lt(a@, b@),
{
    let x = chars_of(a);
    let y = chars_of(b);
    let mut i: usize = 0;
    proof {
        assert(x@.skip(0) =~= x@);
        assert(y@.skip(0) =~= y@);
    }
    while i < x.len() && i < y.len()
        invariant
            i <= x@.len(),
            i <= y@.len(),
            x@ == a@,
            y@ == b@,
            text_lt(x@, y@) == text_lt(x@.skip(i as int), y@.skip(i as int)),
        decreases x@.len() - i,
    {
        if x[i] != y[i] {
            proof {
                assert(x@.skip(i as int)[0] == x@[i as int]);
                assert(y@.skip(i as int)[0] == y@[i as int]);
            }
            return (x[i] as u32) < (y[i] as u32);
        }
        proof {
            assert(x@.skip(i as int).drop_first() =~= x@.skip(i + 1));
            assert(y@.skip(i as int).drop_first() =~= y@.skip(i + 1));
        }
        i = i + 1;
    }
    x.len() < y.len()
}

/// `a` sorts no later than `b`.
pub open spec fn text_le(a: Seq<char>, b: Seq<char>) -> bool {
    !text_lt(b, a)
}

/// The first `n` names are in text order.
pub open spec fn sorted_upto(s: Seq<String>, n: int) -> bool {
    forall|p: int, q: int| 0 <= p < q < n ==> text_le(#[trigger] s[p]@, #[trigger] s[q]@)
}

/// `text_le` is transitive.
proof fn lemma_text_le_trans(a: Seq<char>, b: Seq<char>, c: Seq<char>)
    requires
        text_le(a, b),
        text_le(b, c),
    ensures
        text_le(a, c),
{
    law_text_order(a, b);
    law_text_order(b, c);
    law_text_order(a, c);
    if a != b && b != c {
        law_text_lt_transitive(a, b, c);
    }
}

/// Swapping two neighbours keeps the multiset of a sequence.
proof fn lemma_swap_multiset(s: Seq<String>, j: int)
    requires
        0 < j < s.len(),
    ensures
        s.update(j - 1, s[j]).update(j, s[j - 1]).to_multiset() == s.to_multiset(),
{
    broadcast use vstd::seq_lib::to_multiset_update;
    broadcast use vstd::multiset::group_multiset_axioms;
    let s1 = s.update(j - 1, s[j]);
    let m = s.to_multiset();
    assert(s1[j] == s[j]);
    assert(s1.to_multiset() == m.insert(s[j]).remove(s[j - 1]));
    assert(s1.update(j, s[j - 1]).to_multiset() == s1.to_multiset().insert(s[j - 1]).remove(s[j]));
    assert(m.count(s[j - 1]) > 0) by {
        broadcast use vstd::seq_lib::to_multiset_contains;
        assert(s.contains(s[j - 1]));
    }
    assert(m.insert(s[j]).remove(s[j - 1]).insert(s[j - 1]).remove(s[j]) =~= m);
}

/// Sorts the names (insertion sort).
fn sort_names(names: &mut Vec<String>)
    ensures
        final(names)@.len() == old(names)@.len(),
        final(names)@.to_multiset() == old(names)@.to_multiset(),
        sorted_upto(final(names)@, final(names)@.len() as int),
{
    let n = names.len();
    if n == 0 {
        return;
    }
    let mut i: usize = 1;
    while i < n
        invariant
            names@.len() == n,
            1 <= i <= n,
            names@.to_multiset() == old(names)@.to_multiset(),
            sorted_upto(names@, i as int),
        decreases n - i,
    {
        let mut j: usize = i;
        while j > 0 && text_less(names[j].as_str(), names[j - 1].as_str())
            invariant
                names@.len() == n,
                j <= i < n,
                names@.to_multiset() == old(names)@.to_multiset(),
                forall|p: int, q: int| 0 <= p < q <= i && p != j && q != j ==> text_le(#[trigger] names@[p]@, #[trigger] names@[q]@),
                forall|q: int| j < q <= i ==> text_le(names@[j as int]@, #[trigger] names@[q]@),
            decreases j,
        {
            let ghost s = names@;
            proof {
                law_text_order(s[j as int]@, s[j - 1]@);
                lemma_swap_multiset(s, j as int);
            }
            let a = names[j - 1].clone();
            let b = names[j].clone();
            names.set(j - 1, b);
            names.set(j, a);
            proof {
                assert(names@ == s.update(j - 1, s[j as int]).update(j as int, s[j - 1]));
                assert forall|q: int| j - 1 < q <= i implies text_le(names@[j - 1]@, #[trigger] names@[q]@) by {
                    if q > j {
                        assert(names@[q] == s[q]);
                    }
                }
                assert forall|p: int, q: int| 0 <= p < q <= i && p != j - 1 && q != j - 1 implies text_le(#[trigger] names@[p]@, #[trigger] names@[q]@) by {
                    if p == j {
                        assert(names@[p] == s[j - 1]);
                        assert(names@[q] == s[q]);
                    } else if q == j {
                        assert(names@[q] == s[j - 1]);
                        assert(names@[p] == s[p]);
                    } else {
                        assert(names@[p] == s[p]);
                        assert(names@[q] == s[q]);
                    }
                }
            }
            j = j - 1;
        }
        proof {
            let s = names@;
            assert(j > 0 ==> text_le(s[j - 1]@, s[j as int]@));
            assert forall|p: int, q: int| 0 <= p < q < i + 1 implies text_le(#[trigger] s[p]@, #[trigger] s[q]@) by {
                if q == j && p < j - 1 {
                    assert(text_le(s[p]@, s[j - 1]@));
                    lemma_text_le_trans(s[p]@, s[j - 1]@, s[j as int]@);
                } else if q == j {
                    assert(p == j - 1);
                } else if p == j {
                    assert(text_le(s[j as int]@, s[q]@));
                } else {
                    assert(p != j && q != j);
                }
            }
            assert(sorted_upto(s, i + 1));
        }
        i = i + 1;
    }
}

/// Checks the constants of module `m`: their right-hand sides (E307, E301) and
/// that no definition depends on itself (E306), and records in
/// `const_order` an order in which each constant follows those it refers to.
fn check_consts(unit: &ModuleUnit, m: usize, env: &mut Env, diags: &mut Diagnostics)
    requires
        m < old(env).modules@.len(),
    ensures
        final(env).types@ == old(env).types@,
        final(env).std_types@ == old(env).std_types@,
        final(env).modules@.len() == old(env).modules@.len(),
        forall|k: int| 0 <= k < old(env).modules@.len() && k != m ==> final(env).modules@[k] == old(env).modules@[k],
        final(env).modules@[m as int].aliases@ == old(env).modules@[m as int].aliases@,
        final(env).modules@[m as int].type_names@ == old(env).modules@[m as int].type_names@,
        final(env).modules@[m as int].ctors@ == old(env).modules@[m as int].ctors@,
        final(env).modules@[m as int].consts@ == old(env).modules@[m as int].consts@,
        final(env).modules@[m as int].rules@ == old(env).modules@[m as int].rules@,
        final(env).modules@[m as int].flows@ == old(env).modules@[m as int].flows@,
        final(env).module_names@ == old(env).module_names@,
        final(env).order@ == old(env).order@,
        final(diags).file() == old(diags).file(),
        keeps(old(diags).all(), final(diags).all()),
        forall|k: int| 0 <= k < final(env).modules@[m as int].const_order@.len()
            ==> lookup(final(env).modules@[m as int].consts@, (#[trigger] final(env).modules@[m as int].const_order@[k])@) is Some,
        forall|j: int| 0 <= j < unit.program.decls@.len() && #[trigger] refers_to_itself(unit.program.decls@[j], j,
            old(env).modules@[m as int].consts@) ==> crate::typecheck::has_code(final(diags).all(), old(diags).all().len() as int, Code::E306),
        forall|j: int| 0 <= j < unit.program.decls@.len() && #[trigger] first_const_decl(unit.program.decls@[j], j,
            old(env).modules@[m as int].consts@) ==> exists|k: int| 0 <= k < final(env).modules@[m as int].const_order@.len()
            && final(env).modules@[m as int].const_order@[k]@ == unit.program.decls@[j]->Const_0.name@,
{
    let ghost consts = env.modules@[m as int].consts@;
    // the dependency graph, built while the right-hand sides are checked;
    // constants of other modules are always evaluated first (dependency order)
    let mut deps: Vec<(String, Vec<String>)> = Vec::new();
    let decls = &unit.program.decls;
    let mut i: usize = 0;
    while i < decls.len()
        invariant
            m < env.modules@.len(),
            diags.file() == old(diags).file(),
            keeps(old(diags).all(), diags.all()),
            forall|j: int| 0 <= j < deps@.len() ==> lookup(env.modules@[m as int].consts@, (#[trigger] deps@[j]).0@) is Some,
            consts == env.modules@[m as int].consts@,
            i <= decls@.len(),
            forall|d: int| 0 <= d < deps@.len() ==> (lookup(consts, (#[trigger] deps@[d]).0@) matches Some(x) && x < i),
            forall|d1: int, d2: int| 0 <= d1 < d2 < deps@.len() ==> (#[trigger] deps@[d1]).0@ != (#[trigger] deps@[d2]).0@,
            forall|j: int| 0 <= j < i && #[trigger] refers_to_itself(decls@[j], j, consts)
                ==> exists|d: int| 0 <= d < deps@.len() && #[trigger] names_itself(deps@[d]),
            forall|j: int| 0 <= j < i && #[trigger] first_const_decl(decls@[j], j, consts)
                ==> exists|d: int| 0 <= d < deps@.len() && deps@[d].0@ == decls@[j]->Const_0.name@,
        decreases decls@.len() - i,
    {
        if let Decl::Const(c) = &decls[i] {
            let first = match env.modules[m].konst(c.name.as_str()) {
                Some(d) => d == i,
                None => false,
            };
            if first {
                let mut refs: Vec<String> = Vec::new();
                walk_const_expr(&c.value, env, m, diags, &mut refs);
                let ghost before = deps@;
                let entry = (c.name.clone(), refs);
                proof {
                    if refers_to_itself(decls@[i as int], i as int, consts) {
                        let rs = const_refs(c.value, consts)->0;
                        assert(entry.1@ =~= rs);
                        assert(names_itself(entry));
                    }
                }
                deps.push(entry);
                proof {
                    assert(deps@[before.len() as int] == entry);
                    assert forall|d1: int, d2: int| 0 <= d1 < d2 < deps@.len() implies (#[trigger] deps@[d1]).0@ != (#[trigger] deps@[d2]).0@ by {
                        if d2 == before.len() {
                            assert(lookup(consts, deps@[d1].0@) matches Some(x) && x < i);
                        }
                    }
                    assert forall|j: int| 0 <= j < i + 1 && #[trigger] first_const_decl(decls@[j], j, consts)
                        implies exists|d: int| 0 <= d < deps@.len() && deps@[d].0@ == decls@[j]->Const_0.name@ by {
                        if j == i {
                            assert(deps@[before.len() as int].0@ == decls@[j]->Const_0.name@);
                        } else {
                            let d = choose|d: int| 0 <= d < before.len() && before[d].0@ == decls@[j]->Const_0.name@;
                            assert(deps@[d] == before[d]);
                        }
                    }
                    assert forall|j: int| 0 <= j < i + 1 && #[trigger] refers_to_itself(decls@[j], j, consts)
                        implies exists|d: int| 0 <= d < deps@.len() && #[trigger] names_itself(deps@[d]) by {
                        if j == i {
                            assert(names_itself(deps@[before.len() as int]));
                        } else {
                            let d = choose|d: int| 0 <= d < before.len() && #[trigger] names_itself(before[d]);
                            assert(deps@[d] == before[d]);
                        }
                    }
                }
            } else {
                proof {
                    assert(!refers_to_itself(decls@[i as int], i as int, consts));
                    assert(!first_const_decl(decls@[i as int], i as int, consts));
                }
            }
        } else {
            proof {
                assert(!refers_to_itself(decls@[i as int], i as int, consts));
                assert(!first_const_decl(decls@[i as int], i as int, consts));
            }
        }
        i = i + 1;
    }
    // cycle detection and a topological order, visiting names in sorted order
    let mut names: Vec<String> = Vec::new();
    let mut state: Vec<u8> = Vec::new();
    let mut k: usize = 0;
    while k < deps.len()
        invariant
            k <= deps@.len(),
            state@.len() == k,
            names@.len() == k,
            forall|d: int| 0 <= d < k ==> #[trigger] names@[d] == deps@[d].0,
            forall|d: int| 0 <= d < k ==> #[trigger] state@[d] == 0,
        decreases deps@.len() - k,
    {
        names.push(deps[k].0.clone());
        state.push(0);
        k = k + 1;
    }
    let ghost names0 = names@;
    sort_names(&mut names);
    proof {
        assert forall|d: int| 0 <= d < deps@.len() implies #[trigger] names@.contains(deps@[d].0) by {
            broadcast use vstd::seq_lib::to_multiset_contains;
            assert(names0[d] == deps@[d].0);
            assert(names0.contains(deps@[d].0));
            assert(names0.to_multiset().count(deps@[d].0) > 0);
            assert(names@.to_multiset().count(deps@[d].0) > 0);
        }
    }
    let mut order: Vec<String> = Vec::new();
    let mut q: usize = 0;
    while q < names.len()
        invariant
            m < env.modules@.len(),
            state@.len() == deps@.len(),
            diags.file() == old(diags).file(),
            keeps(old(diags).all(), diags.all()),
            forall|j: int| 0 <= j < deps@.len() ==> lookup(env.modules@[m as int].consts@, (#[trigger] deps@[j]).0@) is Some,
            forall|k: int| 0 <= k < order@.len() ==> from_deps(#[trigger] order@[k], deps@),
            q <= names@.len(),
            forall|d1: int, d2: int| 0 <= d1 < d2 < deps@.len() ==> (#[trigger] deps@[d1]).0@ != (#[trigger] deps@[d2]).0@,
            forall|d: int| 0 <= d < deps@.len() && state@[d] != 0 && #[trigger] self_dep(deps@, d)
                ==> crate::typecheck::has_code(diags.all(), old(diags).all().len() as int, Code::E306),
            forall|d: int, p: int| 0 <= d < deps@.len() && 0 <= p < q && #[trigger] names@[p] == #[trigger] deps@[d].0
                ==> state@[d] != 0,
            forall|d: int| 0 <= d < deps@.len() && #[trigger] state@[d] != 0 ==> order@.contains(deps@[d].0),
        decreases names@.len() - q,
    {
        let ghost st0 = state@;
        let ghost dl0 = diags.all().len();
        let ghost dv0 = diags.all();
        let ghost ord0 = order@;
        if let Some(idx) = find(&deps, names[q].as_str()) {
            visit(idx, &deps, &mut state, &mut order, unit, &env.modules[m], diags);
            proof {
                assert forall|d: int| 0 <= d < deps@.len() && names@[q as int] == deps@[d].0 implies state@[d] != 0 by {
                    assert(first_match(deps@, deps@[d].0@, d));
                    lemma_first_match_unique(deps@, names@[q as int]@, d, idx as int);
                }
                assert forall|d: int| 0 <= d < deps@.len() && state@[d] != 0 && #[trigger] self_dep(deps@, d)
                    implies crate::typecheck::has_code(diags.all(), old(diags).all().len() as int, Code::E306) by {
                    if st0[d] != 0 {
                        assert(crate::typecheck::has_code(dv0, old(diags).all().len() as int, Code::E306));
                        let k = choose|k: int| old(diags).all().len() <= k < dv0.len() && (#[trigger] dv0[k]).code == Code::E306;
                        assert(diags.all()[k] == dv0[k]);
                    } else {
                        assert(diags.all()[dv0.len() as int].code == Code::E306);
                    }
                }
                assert forall|d: int, p: int| 0 <= d < deps@.len() && 0 <= p < q + 1 && #[trigger] names@[p] == #[trigger] deps@[d].0
                    implies state@[d] != 0 by {
                    if p < q {
                        assert(st0[d] != 0);
                    }
                }
                assert forall|d: int| 0 <= d < deps@.len() && #[trigger] state@[d] != 0 implies order@.contains(deps@[d].0) by {
                    if st0[d] != 0 {
                        assert(ord0.contains(deps@[d].0));
                        let p = choose|p: int| 0 <= p < ord0.len() && ord0[p] == deps@[d].0;
                        assert(order@[p] == ord0[p]);
                    }
                }
            }
        } else {
            proof {
                assert forall|d: int, p: int| 0 <= d < deps@.len() && 0 <= p < q + 1 && #[trigger] names@[p] == #[trigger] deps@[d].0
                    implies state@[d] != 0 by {
                    if p == q {
                        assert(deps@[d].0@ != names@[q as int]@);
                    }
                }
            }
        }
        q = q + 1;
    }
    proof {
        assert forall|d: int| 0 <= d < deps@.len() implies #[trigger] order@.contains(deps@[d].0) by {
            assert(names@.contains(deps@[d].0));
            let p = choose|p: int| 0 <= p < names@.len() && names@[p] == deps@[d].0;
            assert(names@[p] == deps@[d].0);
            assert(state@[d] != 0);
        }
        assert forall|j: int| 0 <= j < decls@.len() && #[trigger] first_const_decl(decls@[j], j, consts)
            implies exists|k: int| 0 <= k < order@.len() && order@[k]@ == decls@[j]->Const_0.name@ by {
            let d = choose|d: int| 0 <= d < deps@.len() && deps@[d].0@ == decls@[j]->Const_0.name@;
            assert(order@.contains(deps@[d].0));
            let k = choose|k: int| 0 <= k < order@.len() && order@[k] == deps@[d].0;
            assert(order@[k]@ == decls@[j]->Const_0.name@);
        }
        assert forall|d: int| 0 <= d < deps@.len() && #[trigger] names_itself(deps@[d]) implies crate::typecheck::has_code(diags.all(), old(diags).all().len() as int, Code::E306) by {
            assert(names@.contains(deps@[d].0));
            let p = choose|p: int| 0 <= p < names@.len() && names@[p] == deps@[d].0;
            assert(names@[p] == deps@[d].0);
            assert(state@[d] != 0);
            assert(first_match(deps@, deps@[d].0@, d));
            let r = choose|r: int| 0 <= r < deps@[d].1@.len() && deps@[d].1@[r]@ == deps@[d].0@;
            assert(self_dep(deps@, d));
        }
    }
    proof {
        assert forall|k: int| 0 <= k < order@.len() implies lookup(env.modules@[m as int].consts@, (#[trigger] order@[k])@) is Some by {
            assert(from_deps(order@[k], deps@));
            let j = choose|j: int| 0 <= j < deps@.len() && deps@[j].0 == order@[k];
            assert(lookup(env.modules@[m as int].consts@, deps@[j].0@) is Some);
        }
    }
    env.modules[m].const_order = order;
}

/// Module `m` breaks the rule on `F main`: a module that is imported defines
/// one, or the entry file has none or one whose signature is not `Void > Void`.
pub open spec fn spec_main_error(env: &Env, m: int) -> bool {
    let f = lookup(env.modules@[m].flows@, "main"@);
    if m != ENTRY {
        f is Some
    } else {
        match f {
            None => true,
            Some(info) => info.has_signature && (info.input != Type::Void || info.output
                != Type::Void),
        }
    }
}

/// The span of the name of the flow whose declaration is `decls[d]`.
fn flow_name_span(unit: &ModuleUnit, d: usize) -> (s: Span)
    ensures
        s == flow_span_at(unit.program.decls@, d as int),
{
    if d < unit.program.decls.len() {
        match &unit.program.decls[d] {
            Decl::Flow(f) => f.name_span,
            _ => Span::new(0, 0),
        }
    } else {
        Span::new(0, 0)
    }
}

/// `x` reports module `m`'s `F main` (E409): from the entry module that has
/// none, at the start of the file.
pub open spec fn main_report(env: &Env, x: crate::diagnostics::Diagnostic, m: usize) -> bool {
    &&& x.code == Code::E409
    &&& (m == ENTRY && lookup(env.modules@[m as int].flows@, "main"@) is None ==> x.span == Span { start: 0, end: 0 })
}

/// Module `m`'s `F main` is reported (E409) among the diagnostics from `from`,
/// attributed to the module.
pub open spec fn main_reported(env: &Env, d: Seq<crate::diagnostics::Diagnostic>, from: int, m: usize) -> bool {
    exists|k: int| from <= k < d.len() && main_report(env, #[trigger] d[k], m) && d[k].file == m
}

/// A report stays among more diagnostics.
proof fn lemma_main_reported_keeps(env: &Env, a: Seq<crate::diagnostics::Diagnostic>, b: Seq<crate::diagnostics::Diagnostic>, from: int, m: usize)
    requires
        0 <= from,
        keeps(a, b),
        main_reported(env, a, from, m),
    ensures
        main_reported(env, b, from, m),
{
    let k = choose|k: int| from <= k < a.len() && main_report(env, #[trigger] a[k], m) && a[k].file == m;
    assert(b[k] == a[k]);
}

/// Checks the rule on `F main` for module `m` (E409, once at most).
fn check_main(unit: &ModuleUnit, m: usize, env: &Env, diags: &mut Diagnostics)
    requires
        m < env.modules@.len(),
    ensures
        final(diags).file() == old(diags).file(),
        keeps(old(diags).all(), final(diags).all()),
        added_only(final(diags).all(), old(diags).all().len() as int, Code::E409),
        spec_main_error(env, m as int) ==> final(diags).all().len() == old(diags).all().len() + 1
            && main_report(env, final(diags).all().last(), m),
        spec_main_error(env, m as int) ==> final(diags).all().last().file == old(diags).file(),
        !spec_main_error(env, m as int) ==> final(diags).all() == old(diags).all(),
{
    if m != ENTRY {
        // a file loaded as a module cannot define main
        if let Some(info) = env.modules[m].flow("main") {
            diags.emit_with_hint(
                codes::TYPE_MAIN,
                flow_name_span(unit, info.decl),
                String::from_str("モジュールには `F main` を定義できません"),
                String::from_str("`F main` は実行対象のファイルにだけ書けます"),
            );
        }
        return ;
    }
    match env.modules[ENTRY].flow("main") {
        None => {
            diags.emit(
                codes::TYPE_MAIN,
                Span::new(0, 0),
                String::from_str("実行可能プログラムには `F main` がちょうど1個必要です"),
            );
        },
        Some(info) => {
            if info.has_signature && (!info.input.same(&Type::Void) || !info.output.same(
                &Type::Void,
            )) {
                diags.emit(
                    codes::TYPE_MAIN,
                    flow_name_span(unit, info.decl),
                    String::from_str("`F main` のシグネチャは `Void > Void` でなければなりません"),
                );
            }
        },
    }
}

/// The type ids a type refers to directly (through lists).
pub open spec fn refs_of(ty: Type) -> Seq<usize>
    decreases ty,
{
    match ty {
        Type::Named(id) => seq![id],
        Type::List(elem) => refs_of(*elem),
        _ => Seq::empty(),
    }
}

/// The type ids a type refers to directly (through lists).
fn type_refs(ty: &Type, out: &mut Vec<usize>)
    ensures
        final(out)@ == old(out)@ + refs_of(*ty),
    decreases ty,
{
    match ty {
        Type::Named(id) => out.push(*id),
        Type::List(elem) => type_refs(&**elem, out),
        _ => {},
    }
}

/// How many entries are still false.
pub open spec fn falses(s: Seq<bool>) -> nat
    decreases s.len(),
{
    if s.len() == 0 {
        0
    } else {
        falses(s.drop_last()) + if !s.last() {
            1nat
        } else {
            0nat
        }
    }
}

proof fn lemma_falses_set(s: Seq<bool>, i: int)
    requires
        0 <= i < s.len(),
        !s[i],
    ensures
        falses(s.update(i, true)) + 1 == falses(s),
    decreases s.len(),
{
    let t = s.update(i, true);
    if i == s.len() - 1 {
        assert(t.drop_last() =~= s.drop_last());
    } else {
        assert(t.drop_last() =~= s.drop_last().update(i, true));
        lemma_falses_set(s.drop_last(), i);
    }
}

/// Reports every type whose definition refers back to itself (E308); such
/// types are forbidden. Imports form no cycle, so a cycle lies within one
/// module, but all types are examined.
fn check_recursive_types(env: &Env, diags: &mut Diagnostics)
    ensures
        keeps(old(diags).all(), final(diags).all()),
        added_only(final(diags).all(), old(diags).all().len() as int, Code::E308),
        final(diags).all().len() <= old(diags).all().len() + env.types@.len(),
        forall|k: int| old(diags).all().len() <= k < final(diags).all().len() ==> about_type(#[trigger] final(diags).all()[k], env.types@),
        (exists|id: int| 0 <= id < env.types@.len() && #[trigger] kind_refs(env.types@[id].kind).contains(id as usize))
            ==> final(diags).all().len() > old(diags).all().len(),
{
    let n = env.types.len();
    let mut edges: Vec<Vec<usize>> = Vec::new();
    let mut id: usize = 0;
    while id < n
        invariant
            n == env.types@.len(),
            edges@.len() == id,
            id <= n,
            forall|j: int| 0 <= j < id ==> (#[trigger] edges@[j])@ == kind_refs(env.types@[j].kind),
        decreases n - id,
    {
        let mut out: Vec<usize> = Vec::new();
        match &env.types[id].kind {
            TypeDefKind::Usage(inner) => type_refs(inner, &mut out),
            TypeDefKind::Record(fields) => {
                let mut k: usize = 0;
                while k < fields.len()
                    invariant
                        k <= fields@.len(),
                        out@ == fields_refs(fields@.take(k as int)),
                    decreases fields@.len() - k,
                {
                    proof {
                        assert(fields@.take(k + 1).drop_last() =~= fields@.take(k as int));
                    }
                    type_refs(&fields[k].ty, &mut out);
                    k = k + 1;
                }
                proof {
                    assert(fields@.take(fields@.len() as int) =~= fields@);
                }
            },
            TypeDefKind::Adt(ctors) => {
                let mut k: usize = 0;
                while k < ctors.len()
                    invariant
                        k <= ctors@.len(),
                        out@ == ctors_refs(ctors@.take(k as int)),
                    decreases ctors@.len() - k,
                {
                    proof {
                        assert(ctors@.take(k + 1).drop_last() =~= ctors@.take(k as int));
                    }
                    if let Some(p) = &ctors[k].payload {
                        type_refs(p, &mut out);
                    } else {
                        assert(out@ =~= out@ + Seq::<usize>::empty());
                    }
                    k = k + 1;
                }
                proof {
                    assert(ctors@.take(ctors@.len() as int) =~= ctors@);
                }
            },
            TypeDefKind::Broken => {},
        }
        proof {
            if env.types@[id as int].kind is Usage {
                assert(out@ =~= kind_refs(env.types@[id as int].kind));
            }
        }
        edges.push(out);
        id = id + 1;
    }
    // from each type, a depth-first search for a path back to it
    let mut reported: Vec<bool> = Vec::new();
    let mut k: usize = 0;
    while k < n
        invariant
            reported@.len() == k,
            k <= n,
            forall|j: int| 0 <= j < k ==> !(#[trigger] reported@[j]),
        decreases n - k,
    {
        reported.push(false);
        k = k + 1;
    }
    let mut start: usize = 0;
    while start < n
        invariant
            n == env.types@.len(),
            edges@.len() == n,
            reported@.len() == n,
            keeps(old(diags).all(), diags.all()),
            added_only(diags.all(), old(diags).all().len() as int, Code::E308),
            start <= n,
            diags.all().len() <= old(diags).all().len() + start,
            forall|j: int| 0 <= j < n ==> (#[trigger] edges@[j])@ == kind_refs(env.types@[j].kind),
            forall|j: int| 0 <= j < n && #[trigger] reported@[j] ==> diags.all().len() > old(diags).all().len(),
            forall|j: int| 0 <= j < start && #[trigger] kind_refs(env.types@[j].kind).contains(j as usize)
                ==> diags.all().len() > old(diags).all().len(),
            forall|k: int| old(diags).all().len() <= k < diags.all().len() ==> about_type(#[trigger] diags.all()[k], env.types@),
        decreases n - start,
    {
        let ghost d_start = diags.all().len();
        if !reported[start] {
            let mut visited: Vec<bool> = Vec::new();
            let mut k: usize = 0;
            while k < n
                invariant
                    visited@.len() == k,
                    k <= n,
                decreases n - k,
            {
                visited.push(false);
                k = k + 1;
            }
            let mut stack: Vec<usize> = Vec::new();
            stack.push(start);
            let ghost mut first = true;
            while stack.len() > 0
                invariant
                    n == env.types@.len(),
                    edges@.len() == n,
                    reported@.len() == n,
                    visited@.len() == n,
                    start < n,
                    keeps(old(diags).all(), diags.all()),
                    added_only(diags.all(), old(diags).all().len() as int, Code::E308),
                    reported@[start as int] ==> stack@.len() == 0,
                    forall|j: int| 0 <= j < n ==> (#[trigger] edges@[j])@ == kind_refs(env.types@[j].kind),
                    forall|j: int| 0 <= j < n && #[trigger] reported@[j] ==> diags.all().len() > old(diags).all().len(),
                    first ==> stack@ == seq![start] && !reported@[start as int],
                    diags.all().len() >= d_start,
                    !first && kind_refs(env.types@[start as int].kind).contains(start) ==> reported@[start as int],
                    diags.all().len() <= old(diags).all().len() + start + if reported@[start as int] { 1int } else { 0int },
                    forall|k: int| old(diags).all().len() <= k < diags.all().len() ==> about_type(#[trigger] diags.all()[k], env.types@),
                decreases 2 * falses(visited@) + stack@.len(),
            {
                let cur = stack.pop().unwrap();
                let ghost measure = 2 * falses(visited@) + stack@.len();
                let mut found = false;
                if cur < n {
                    let es = &edges[cur];
                    let mut q: usize = 0;
                    while q < es.len()
                        invariant_except_break
                            !reported@[start as int],
                            !found,
                            diags.all().len() <= old(diags).all().len() + start,
                        invariant
                            n == env.types@.len(),
                            reported@.len() == n,
                            visited@.len() == n,
                            start < n,
                            2 * falses(visited@) + stack@.len() <= measure,
                            keeps(old(diags).all(), diags.all()),
                            added_only(diags.all(), old(diags).all().len() as int, Code::E308),
                            forall|k: int| old(diags).all().len() <= k < diags.all().len() ==> about_type(#[trigger] diags.all()[k], env.types@),
                            forall|j: int| 0 <= j < n && #[trigger] reported@[j] ==> diags.all().len() > old(diags).all().len(),
                            q <= es@.len(),
                            diags.all().len() >= d_start,
                            !found ==> forall|p: int| 0 <= p < q ==> es@[p] != start,
                        ensures
                            found ==> reported@[start as int] && diags.all().len() <= old(diags).all().len() + start + 1,
                            !found ==> forall|p: int| 0 <= p < es@.len() ==> es@[p] != start,
                            !found ==> !reported@[start as int] && diags.all().len() <= old(diags).all().len() + start,
                        decreases es@.len() - q,
                    {
                        let next = es[q];
                        if next == start {
                            let def = &env.types[start];
                            diags.set_file(def.module);
                            diags.emit_with_hint(
                                codes::RESOLVE_RECURSIVE_TYPE,
                                def.span,
                                cat3("型 `", def.name.as_str(), "` は再帰的に定義されています"),
                                String::from_str("TCRF では再帰型を定義できません"),
                            );
                            reported.set(start, true);
                            assert(about_type(diags.all().last(), env.types@)) by {
                                assert(diags.all().last().span == env.types@[start as int].span);
                            }
                            found = true;
                            break;
                        }
                        if next < n && !visited[next] {
                            proof {
                                lemma_falses_set(visited@, next as int);
                            }
                            visited.set(next, true);
                            stack.push(next);
                        }
                        q = q + 1;
                    }
                    proof {
                        if first && kind_refs(env.types@[start as int].kind).contains(start) {
                            assert(cur == start);
                            if !found {
                                let p = choose|p: int| 0 <= p < es@.len() && es@[p] == start;
                                assert(es@[p] != start);
                            }
                        }
                    }
                }
                proof {
                    first = false;
                }
                if found {
                    stack.clear();
                }
            }
            proof {
                assert(!first);
            }
        }
        proof {
            if kind_refs(env.types@[start as int].kind).contains(start) {
                assert(reported@[start as int]);
            }
        }
        start = start + 1;
    }
}

/// The standard library's signatures, from its declaration file std.tcrf
/// (none when std is not imported).
fn std_signatures(loaded: &Loaded, diags: &mut Diagnostics) -> (sigs: Vec<stdsig::StdSig>)
    ensures
        keeps(old(diags).all(), final(diags).all()),
        loaded.std_unit matches Some(id) ==> id < loaded.units@.len() ==> {
            let decls = loaded.units@[id as int].program.decls@;
            &&& final(diags).file() == id
            &&& forall|a: int, b: int| 0 <= a < b < sigs@.len() ==> #[trigger] sigs@[a].name@ != #[trigger] sigs@[b].name@
            &&& forall|a: int| 0 <= a < sigs@.len() ==> stdsig::declared_in(decls, decls.len() as int, #[trigger] sigs@[a])
            &&& forall|i: int| 0 <= i < decls.len() && stdsig::usable_decl(#[trigger] decls[i]) ==> (
                decls[i] matches Decl::Rule(r) && stdsig::has_sig_named(sigs@, r.name@))
        },
        !(loaded.std_unit matches Some(id) && id < loaded.units@.len()) ==> sigs@.len() == 0
            && final(diags).all() == old(diags).all() && final(diags).file() == old(diags).file(),
{
    let mut std_sigs: Vec<stdsig::StdSig> = Vec::new();
    if let Some(id) = loaded.std_unit {
        if id < loaded.units.len() {
            diags.set_file(id);
            std_sigs = stdsig::build(&loaded.units[id], diags);
        }
    }
    std_sigs
}

/// What resolution gives a module of `unit`: every type it declares (but a
/// builtin one) has a type name, every constant, flow and rule with a body a
/// value name, every resolved import its qualifier; and a constant of it that
/// refers to itself is among the diagnostics from `from` on (E306).
pub open spec fn module_resolved(menv: ModuleEnv, unit: ModuleUnit, d: Seq<crate::diagnostics::Diagnostic>, from: int) -> bool {
    let decls = unit.program.decls@;
    &&& forall|j: int| 0 <= j < decls.len() ==> (#[trigger] decls[j] matches Decl::Type(t)
        ==> (spec_builtin_type(t.name@) is None ==> lookup(menv.type_names@, t.name@) is Some))
    &&& forall|j: int| 0 <= j < decls.len() ==> (#[trigger] declared_value(decls[j]) matches Some(n)
        ==> value_bound(menv, n))
    &&& forall|j: int| 0 <= j < unit.program.imports@.len() && j < unit.import_targets@.len()
        && unit.import_targets@[j] is Some && (#[trigger] unit.program.imports@[j]).path@.len() > 0
        ==> lookup(menv.aliases@, import_qual(unit.program.imports@[j])) is Some
    &&& forall|j: int| 0 <= j < decls.len() && #[trigger] refers_to_itself(decls[j], j, menv.consts@)
        ==> crate::typecheck::has_code(d, from, Code::E306)
    &&& imports_clash(unit) ==> crate::typecheck::has_code(d, from, Code::E303)
}

/// A law on diagnostics grows with them.
proof fn lemma_has_code_keeps(a: Seq<crate::diagnostics::Diagnostic>, b: Seq<crate::diagnostics::Diagnostic>, from: int, c: Code)
    requires
        0 <= from,
        keeps(a, b),
        crate::typecheck::has_code(a, from, c),
    ensures
        crate::typecheck::has_code(b, from, c),
{
    let k = choose|k: int| from <= k < a.len() && (#[trigger] a[k]).code == c;
    assert(b[k] == a[k]);
}

/// `module_resolved` holds on for more diagnostics.
proof fn lemma_resolved_keeps(menv: ModuleEnv, unit: ModuleUnit, a: Seq<crate::diagnostics::Diagnostic>,
    b: Seq<crate::diagnostics::Diagnostic>, from: int)
    requires
        0 <= from,
        keeps(a, b),
        module_resolved(menv, unit, a, from),
    ensures
        module_resolved(menv, unit, b, from),
{
    if exists|j: int| 0 <= j < unit.program.decls@.len() && #[trigger] refers_to_itself(unit.program.decls@[j], j, menv.consts@) {
        lemma_has_code_keeps(a, b, from, Code::E306);
    }
    if imports_clash(unit) {
        lemma_has_code_keeps(a, b, from, Code::E303);
    }
}

/// Resolves the names of all loaded modules, in dependency order, into the
/// environment read by the type checker and the evaluator.
#[verifier::spinoff_prover]
pub fn resolve(loaded: &Loaded, diags: &mut Diagnostics) -> (env: Env)
    ensures
        env.modules@.len() == loaded.units@.len(),
        env.module_names@.len() == loaded.units@.len(),
        forall|i: int| 0 <= i < loaded.units@.len() ==> (#[trigger] env.module_names@[i])@ == loaded.units@[i].name@,
        env.order@ == loaded.order@,
        forall|j: int| 0 <= j < env.modules@.len() ==> unique_keys(#[trigger] env.modules@[j].aliases@),
        forall|j: int| 0 <= j < env.modules@.len() ==> unique_keys(#[trigger] env.modules@[j].type_names@),
        forall|j: int| 0 <= j < env.modules@.len() ==> unique_keys(#[trigger] env.modules@[j].ctors@),
        keeps(old(diags).all(), final(diags).all()),
        forall|q: int| 0 <= q < loaded.order@.len() && #[trigger] loaded.order@[q] < loaded.units@.len() ==> module_resolved(
            env.modules@[loaded.order@[q] as int], loaded.units@[loaded.order@[q] as int], final(diags).all(),
            old(diags).all().len() as int),
        forall|q: int| 0 <= q < loaded.order@.len() && #[trigger] loaded.order@[q] < loaded.units@.len()
            && spec_main_error(&env, loaded.order@[q] as int)
            ==> main_reported(&env, final(diags).all(), old(diags).all().len() as int, loaded.order@[q]),
        (exists|id: int| 0 <= id < env.types@.len() && #[trigger] kind_refs(env.types@[id].kind).contains(id as usize))
            ==> crate::typecheck::has_code(final(diags).all(), old(diags).all().len() as int, Code::E308),
{
    let n = loaded.units.len();
    let mut modules: Vec<ModuleEnv> = Vec::new();
    let mut module_names: Vec<String> = Vec::new();
    let mut i: usize = 0;
    while i < n
        invariant
            n == loaded.units@.len(),
            modules@.len() == i,
            module_names@.len() == i,
            i <= n,
            forall|j: int| 0 <= j < i ==> (#[trigger] modules@[j].aliases@).len() == 0,
            forall|j: int| 0 <= j < i ==> (#[trigger] modules@[j].type_names@).len() == 0,
            forall|j: int| 0 <= j < i ==> (#[trigger] modules@[j].ctors@).len() == 0,
            forall|j: int| 0 <= j < i ==> (#[trigger] module_names@[j])@ == loaded.units@[j].name@,
        decreases n - i,
    {
        let fresh = ModuleEnv::new();
        let ghost before = modules@;
        modules.push(fresh);
        module_names.push(loaded.units[i].name.clone());
        proof {
            assert forall|j: int| 0 <= j < i + 1 implies {
                &&& (#[trigger] modules@[j].aliases@).len() == 0
                &&& modules@[j].type_names@.len() == 0
                &&& modules@[j].ctors@.len() == 0
            } by {
                if j < i {
                    assert(modules@[j] == before[j]);
                }
            }
        }
        i = i + 1;
    }
    let mut order: Vec<usize> = Vec::new();
    let mut k: usize = 0;
    while k < loaded.order.len()
        invariant
            order@ == loaded.order@.take(k as int),
            k <= loaded.order@.len(),
        decreases loaded.order@.len() - k,
    {
        order.push(loaded.order[k]);
        k = k + 1;
    }
    assert(order@ == loaded.order@);
    let std_sigs = std_signatures(loaded, diags);
    let mut env = Env { types: Vec::new(), std_types: Vec::new(), modules, module_names, order, std_sigs };
    register_std_types(&mut env);
    assert forall|j: int| 0 <= j < n implies unique_keys(#[trigger] env.modules@[j].aliases@) by {
        assert(env.modules@[j].aliases@.len() == 0);
    }
    assert forall|j: int| 0 <= j < n implies unique_keys(#[trigger] env.modules@[j].type_names@) by {
        assert(env.modules@[j].type_names@.len() == 0);
    }
    assert forall|j: int| 0 <= j < n implies unique_keys(#[trigger] env.modules@[j].ctors@) by {
        assert(env.modules@[j].ctors@.len() == 0);
    }
    // dependencies first: the namespace of each imported module is complete
    let mut q: usize = 0;
    while q < loaded.order.len()
        invariant
            n == loaded.units@.len(),
            env.modules@.len() == n,
            env.module_names@.len() == n,
            forall|j: int| 0 <= j < n ==> (#[trigger] env.module_names@[j])@ == loaded.units@[j].name@,
            env.order@ == loaded.order@,
            forall|j: int| 0 <= j < n ==> unique_keys(#[trigger] env.modules@[j].aliases@),
            forall|j: int| 0 <= j < n ==> unique_keys(#[trigger] env.modules@[j].type_names@),
            forall|j: int| 0 <= j < n ==> unique_keys(#[trigger] env.modules@[j].ctors@),
            keeps(old(diags).all(), diags.all()),
            forall|p: int| 0 <= p < q && #[trigger] loaded.order@[p] < n ==> module_resolved(
                env.modules@[loaded.order@[p] as int], loaded.units@[loaded.order@[p] as int], diags.all(),
                old(diags).all().len() as int),
            forall|p: int| 0 <= p < q && #[trigger] loaded.order@[p] < n && spec_main_error(&env, loaded.order@[p] as int)
                ==> main_reported(&env, diags.all(), old(diags).all().len() as int, loaded.order@[p]),
        decreases loaded.order@.len() - q,
    {
        let m = loaded.order[q];
        let ghost dq = diags.all();
        let ghost envq = env;
        if m < n {
            let unit = &loaded.units[m];
            diags.set_file(m);
            let ghost e0 = env.modules@;
            resolve_imports(unit, m, &mut env, diags);
            let ghost e1 = env.modules@;
            let ghost d1 = diags.all();
            collect_type_names(unit, m, &mut env, diags);
            let ghost e2 = env.modules@;
            let ghost d2 = diags.all();
            resolve_type_bodies(unit, m, &mut env, diags);
            let ghost e3 = env.modules@;
            let ghost d3 = diags.all();
            collect_ctors(unit, m, &mut env, diags);
            let ghost e4 = env.modules@;
            let ghost d4 = diags.all();
            collect_values(unit, m, &mut env, diags);
            let ghost e5 = env.modules@;
            let ghost d5 = diags.all();
            check_consts(unit, m, &mut env, diags);
            let ghost d6 = diags.all();
            check_main(unit, m, &env, diags);
            proof {
                assert forall|j: int| 0 <= j < n && j != m implies #[trigger] env.modules@[j] == e0[j] by {
                    assert(e1[j] == e0[j]);
                    assert(e2[j] == e1[j]);
                    assert(e3[j] == e2[j]);
                    assert(e4[j] == e3[j]);
                    assert(e5[j] == e4[j]);
                }
                assert(unique_keys(e1[m as int].aliases@));
                assert(env.modules@[m as int].aliases@ == e1[m as int].aliases@);
                assert forall|j: int| 0 <= j < n implies unique_keys(#[trigger] env.modules@[j].aliases@) by {
                    if j != m {
                        assert(unique_keys(e0[j].aliases@));
                    }
                }
                // the module just resolved
                assert(module_resolved(env.modules@[m as int], *unit, d6, old(diags).all().len() as int)) by {
                    assert(env.modules@[m as int].type_names@ == e2[m as int].type_names@);
                    assert(env.modules@[m as int].consts@ == e5[m as int].consts@);
                    assert(env.modules@[m as int].rules@ == e5[m as int].rules@);
                    assert(env.modules@[m as int].flows@ == e5[m as int].flows@);
                    if exists|j: int| 0 <= j < unit.program.decls@.len() && #[trigger] refers_to_itself(unit.program.decls@[j], j, env.modules@[m as int].consts@) {
                        let k = choose|k: int| d5.len() <= k < d6.len() && (#[trigger] d6[k]).code == Code::E306;
                    }
                    if imports_clash(*unit) {
                        lemma_has_code_keeps(d1, d2, dq.len() as int, Code::E303);
                        lemma_has_code_keeps(d2, d3, dq.len() as int, Code::E303);
                        lemma_has_code_keeps(d3, d4, dq.len() as int, Code::E303);
                        lemma_has_code_keeps(d4, d5, dq.len() as int, Code::E303);
                        lemma_has_code_keeps(d5, d6, dq.len() as int, Code::E303);
                        let k = choose|k: int| dq.len() <= k < d6.len() && (#[trigger] d6[k]).code == Code::E303;
                    }
                }
                lemma_resolved_keeps(env.modules@[m as int], *unit, d6, diags.all(), old(diags).all().len() as int);
                if spec_main_error(&env, m as int) {
                    assert(diags.all()[d6.len() as int] == diags.all().last());
                    assert(main_report(&env, diags.all()[d6.len() as int], m));
                }
                assert forall|p: int| 0 <= p < q + 1 && #[trigger] loaded.order@[p] < n implies module_resolved(
                    env.modules@[loaded.order@[p] as int], loaded.units@[loaded.order@[p] as int], diags.all(),
                    old(diags).all().len() as int) by {
                    if loaded.order@[p] != m {
                        lemma_resolved_keeps(envq.modules@[loaded.order@[p] as int], loaded.units@[loaded.order@[p] as int],
                            dq, diags.all(), old(diags).all().len() as int);
                    }
                }
                assert forall|p: int| 0 <= p < q + 1 && #[trigger] loaded.order@[p] < n && spec_main_error(&env, loaded.order@[p] as int)
                    implies main_reported(&env, diags.all(), old(diags).all().len() as int, loaded.order@[p]) by {
                    if loaded.order@[p] != m {
                        assert(env.modules@[loaded.order@[p] as int] == envq.modules@[loaded.order@[p] as int]);
                        let mp = loaded.order@[p];
                        let k = choose|k: int| old(diags).all().len() <= k < dq.len() && main_report(&envq, #[trigger] dq[k], mp) && dq[k].file == mp;
                        assert(main_report(&env, dq[k], mp));
                        assert(diags.all()[k] == dq[k]);
                    }
                }
            }
        }
        q = q + 1;
    }
    let ghost dr = diags.all();
    check_recursive_types(&env, diags);
    proof {
        if exists|id: int| 0 <= id < env.types@.len() && #[trigger] kind_refs(env.types@[id].kind).contains(id as usize) {
            assert(diags.all()[dr.len() as int].code == Code::E308);
        }
        assert forall|p: int| 0 <= p < loaded.order@.len() && #[trigger] loaded.order@[p] < n implies module_resolved(
            env.modules@[loaded.order@[p] as int], loaded.units@[loaded.order@[p] as int], diags.all(),
            old(diags).all().len() as int) by {
            lemma_resolved_keeps(env.modules@[loaded.order@[p] as int], loaded.units@[loaded.order@[p] as int],
                dr, diags.all(), old(diags).all().len() as int);
        }
        assert forall|p: int| 0 <= p < loaded.order@.len() && #[trigger] loaded.order@[p] < n && spec_main_error(&env, loaded.order@[p] as int)
            implies main_reported(&env, diags.all(), old(diags).all().len() as int, loaded.order@[p]) by {
            lemma_main_reported_keeps(&env, dr, diags.all(), old(diags).all().len() as int, loaded.order@[p]);
        }
    }
    env
}

} // verus!
