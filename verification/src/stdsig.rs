//! Signatures of the standard library declaration file std.tcrf.
//! The type checker checks `std.xxx` calls against them.
use crate::ast::{Decl, RuleDecl, RuleKind, TypeExpr};
use crate::builtins::Builtin;
use crate::diagnostics::{codes, keeps, Code, Diagnostics};
use crate::span::Span;
use crate::loader::ModuleUnit;
use crate::text::{chars_of, is_upper, is_upper_exec};
use crate::text_fmt::{cat2, cat3, cat5, cat6, nat_text, str_is};
use crate::types::{find, lookup, type_text, Env, Type, TypeDefKind};
use vstd::prelude::*;
use vstd::string::*;

verus! {

/// A type in a std.tcrf signature.
#[derive(Debug)]
pub enum SigType {
    /// A type variable (one upper-case letter: A, B, ...)
    Var(String),
    List(Box<SigType>),
    /// A builtin scalar or Void
    Concrete(Type),
    /// std.RangeInput: accepts any record of `first Int` and `last Int`
    RangeInput,
}

#[derive(Debug)]
pub struct StdSig {
    pub name: String,
    pub inputs: Vec<SigType>,
    pub output: SigType,
    pub can_fail: bool,
}

/// The signature declared under `name`, if any.
pub fn find_sig<'a>(sigs: &'a Vec<StdSig>, name: &str) -> (r: Option<&'a StdSig>)
    ensures
        r matches Some(s) ==> s.name@ == name@ && exists|i: int|
            0 <= i < sigs@.len() && sigs@[i] == *s,
        r is None ==> forall|i: int| 0 <= i < sigs@.len() ==> (#[trigger] sigs@[i]).name@ != name@,
{
    let mut i: usize = 0;
    while i < sigs.len()
        invariant
            0 <= i <= sigs@.len(),
            forall|j: int| 0 <= j < i ==> (#[trigger] sigs@[j]).name@ != name@,
        decreases sigs@.len() - i,
    {
        if str_is(&sigs[i].name, name) {
            return Some(&sigs[i]);
        }
        i = i + 1;
    }
    None
}

/// The signature type a std.tcrf type expression stands for; `None` for a
/// type std.tcrf may not use (a user type or a qualified name).
pub open spec fn spec_sig_type(t: TypeExpr) -> Option<SigType>
    decreases t,
{
    match t {
        TypeExpr::Void { .. } => Some(SigType::Concrete(Type::Void)),
        TypeExpr::List { elem, .. } => match spec_sig_type(*elem) {
            Some(e) => Some(SigType::List(Box::new(e))),
            None => None,
        },
        TypeExpr::Named { qualifier: None, name, .. } => if name@ == "Int"@ {
            Some(SigType::Concrete(Type::Int))
        } else if name@ == "Decimal"@ {
            Some(SigType::Concrete(Type::Decimal))
        } else if name@ == "Text"@ {
            Some(SigType::Concrete(Type::Text))
        } else if name@ == "Char"@ {
            Some(SigType::Concrete(Type::Char))
        } else if name@ == "Bool"@ {
            Some(SigType::Concrete(Type::Bool))
        } else if name@ == "RangeInput"@ {
            Some(SigType::RangeInput)
        } else if name@.len() == 1 && is_upper(name@[0]) {
            Some(SigType::Var(name))
        } else {
            None
        },
        TypeExpr::Named { qualifier: Some(_), .. } => None,
    }
}

/// What `sig_type` gives: `spec_sig_type`'s result, with `Void` in place of
/// a type that std.tcrf may not use.
pub open spec fn sig_type_or_void(t: TypeExpr) -> SigType
    decreases t,
{
    match t {
        TypeExpr::List { elem, .. } => SigType::List(Box::new(sig_type_or_void(*elem))),
        _ => match spec_sig_type(t) {
            Some(s) => s,
            None => SigType::Concrete(Type::Void),
        },
    }
}

/// The span of the one type name in `t` (a list nests a single element type).
pub open spec fn leaf_span(t: TypeExpr) -> Span
    decreases t,
{
    match t {
        TypeExpr::List { elem, .. } => leaf_span(*elem),
        _ => t.spec_span(),
    }
}

/// Converts a type expression of std.tcrf; clears `ok` (with a diagnostic)
/// when it uses a type that std.tcrf may not use.
pub fn sig_type(t: &TypeExpr, diags: &mut Diagnostics, ok: &mut bool) -> (s: SigType)
    ensures
        *final(ok) == (*old(ok) && spec_sig_type(*t) is Some),
        spec_sig_type(*t) matches Some(st) ==> s == st,
        s == sig_type_or_void(*t),
        final(diags).file() == old(diags).file(),
        keeps(old(diags).all(), final(diags).all()),
        spec_sig_type(*t) is Some ==> final(diags).all() == old(diags).all(),
        spec_sig_type(*t) is None ==> final(diags).all().len() == old(diags).all().len() + 1
            && final(diags).all().drop_last() == old(diags).all()
            && final(diags).all().last().code == Code::E311
            && final(diags).all().last().span == leaf_span(*t),
    decreases t,
{
    match t {
        TypeExpr::Void { .. } => SigType::Concrete(Type::Void),
        TypeExpr::List { elem, .. } => SigType::List(Box::new(sig_type(&**elem, diags, ok))),
        TypeExpr::Named { qualifier: None, name, span } => {
            if str_is(name, "Int") {
                SigType::Concrete(Type::Int)
            } else if str_is(name, "Decimal") {
                SigType::Concrete(Type::Decimal)
            } else if str_is(name, "Text") {
                SigType::Concrete(Type::Text)
            } else if str_is(name, "Char") {
                SigType::Concrete(Type::Char)
            } else if str_is(name, "Bool") {
                SigType::Concrete(Type::Bool)
            } else if str_is(name, "RangeInput") {
                SigType::RangeInput
            } else {
                let cs = chars_of(name.as_str());
                if cs.len() == 1 && is_upper_exec(cs[0]) {
                    SigType::Var(name.clone())
                } else {
                    diags.emit(
                        codes::RESOLVE_STD_DECL,
                        *span,
                        cat3(
                            "std.tcrf の型に `",
                            name.as_str(),
                            "` は使えません (組み込み型・List・型変数 A〜Z・RangeInput のみ)",
                        ),
                    );
                    proof {
                        assert(diags.all().drop_last() =~= old(diags).all());
                    }
                    *ok = false;
                    SigType::Concrete(Type::Void)
                }
            }
        },
        TypeExpr::Named { qualifier: Some(_), span, .. } => {
            diags.emit(
                codes::RESOLVE_STD_DECL,
                *span,
                String::from_str("std.tcrf の型に修飾名は使えません"),
            );
            proof {
                assert(diags.all().drop_last() =~= old(diags).all());
            }
            *ok = false;
            SigType::Concrete(Type::Void)
        },
    }
}

/// `sig` is what the declaration `r` says: its name, input and output types
/// and whether it may fail.
#[verifier::opaque]
pub open spec fn declared_as(r: RuleDecl, sig: StdSig) -> bool {
    match r.kind {
        RuleKind::External { inputs, output, can_fail } => {
            &&& r.name@ == sig.name@
            &&& sig.can_fail == can_fail
            &&& sig.inputs@.len() == inputs@.len()
            &&& forall|k: int| 0 <= k < inputs@.len() ==> spec_sig_type(#[trigger] inputs@[k]) == Some(sig.inputs@[k])
            &&& spec_sig_type(output) == Some(sig.output)
        },
        _ => false,
    }
}

/// One of the first `n` declarations says `sig`.
#[verifier::opaque]
pub open spec fn declared_in(decls: Seq<Decl>, n: int, sig: StdSig) -> bool {
    exists|i: int| 0 <= i < n && (#[trigger] decls[i] matches Decl::Rule(r) && declared_as(r, sig))
}

/// Some signature is named `name`.
#[verifier::opaque]
pub open spec fn has_sig_named(sigs: Seq<StdSig>, name: Seq<char>) -> bool {
    exists|a: int| 0 <= a < sigs.len() && (#[trigger] sigs[a]).name@ == name
}

/// A declaration without a body whose types std.tcrf may all use.
#[verifier::opaque]
pub open spec fn usable_decl(d: Decl) -> bool {
    d matches Decl::Rule(r) && r.kind matches RuleKind::External { inputs, output, .. } && spec_sig_type(output) is Some
        && forall|k: int| 0 <= k < inputs@.len() ==> spec_sig_type(#[trigger] inputs@[k]) is Some
}

/// The name span of a rule with a body (which std.tcrf may not hold).
pub open spec fn body_rule_span(d: Decl) -> Option<Span> {
    match d {
        Decl::Rule(r) => if r.kind is External {
            None
        } else {
            Some(r.name_span)
        },
        _ => None,
    }
}

/// A diagnostic E311 at `span` is among those from `from` on.
pub open spec fn e311_at(d: Seq<crate::diagnostics::Diagnostic>, from: int, span: Span) -> bool {
    exists|k: int| from <= k < d.len() && (#[trigger] d[k]).code == Code::E311 && d[k].span == span
}

/// Some declaration without a body is named `name`.
pub open spec fn external_named(decls: Seq<Decl>, name: Seq<char>) -> bool {
    exists|j: int| 0 <= j < decls.len() && (#[trigger] decls[j] matches Decl::Rule(r) && r.kind is External && r.name@ == name)
}

/// Builds the signature table from the declarations of std.tcrf. Call
/// `diags.set_file` with the std.tcrf unit number first. Each signature is
/// what a declaration of the file says, no two share a name, and every
/// usable declaration's name has one (the first usable declaration of it).
pub fn build(unit: &ModuleUnit, diags: &mut Diagnostics) -> (sigs: Vec<StdSig>)
    ensures
        final(diags).file() == old(diags).file(),
        keeps(old(diags).all(), final(diags).all()),
        forall|a: int, b: int| 0 <= a < b < sigs@.len() ==> #[trigger] sigs@[a].name@ != #[trigger] sigs@[b].name@,
        forall|a: int| 0 <= a < sigs@.len() ==> declared_in(unit.program.decls@, unit.program.decls@.len() as int, #[trigger] sigs@[a]),
        forall|i: int| 0 <= i < unit.program.decls@.len() && usable_decl(#[trigger] unit.program.decls@[i]) ==> (
            unit.program.decls@[i] matches Decl::Rule(r) && has_sig_named(sigs@, r.name@)),
        forall|i: int| 0 <= i < unit.program.decls@.len() && (#[trigger] body_rule_span(unit.program.decls@[i])) is Some
            ==> e311_at(final(diags).all(), old(diags).all().len() as int, body_rule_span(unit.program.decls@[i])->0),
        forall|a: int| 0 <= a < sigs@.len() ==> #[trigger] external_named(unit.program.decls@, sigs@[a].name@),
{
    proof {
        reveal(declared_in);
        reveal(has_sig_named);
        reveal(usable_decl);
        reveal(declared_as);
    }
    let mut sigs: Vec<StdSig> = Vec::new();
    if unit.program.imports.len() > 0 {
        diags.emit(
            codes::RESOLVE_STD_DECL,
            unit.program.imports[0].span,
            String::from_str("std.tcrf では import を使えません"),
        );
    }
    let decls = &unit.program.decls;
    let mut i: usize = 0;
    while i < decls.len()
        invariant
            decls == &unit.program.decls,
            i <= decls@.len(),
            diags.file() == old(diags).file(),
            keeps(old(diags).all(), diags.all()),
            forall|a: int, b: int| 0 <= a < b < sigs@.len() ==> #[trigger] sigs@[a].name@ != #[trigger] sigs@[b].name@,
            forall|a: int| 0 <= a < sigs@.len() ==> declared_in(decls@, i as int, #[trigger] sigs@[a]),
            forall|j: int| 0 <= j < i && usable_decl(#[trigger] decls@[j]) ==> (decls@[j] matches Decl::Rule(r)
                && has_sig_named(sigs@, r.name@)),
            forall|j: int| 0 <= j < i && (#[trigger] body_rule_span(decls@[j])) is Some
                ==> e311_at(diags.all(), old(diags).all().len() as int, body_rule_span(decls@[j])->0),
            forall|a: int| 0 <= a < sigs@.len() ==> #[trigger] external_named(decls@, sigs@[a].name@),
        decreases decls@.len() - i,
    {
        let ghost d_iter = diags.all();
        let ghost s_iter = sigs@;
        proof {
            reveal(declared_in);
            reveal(has_sig_named);
            reveal(usable_decl);
            reveal(declared_as);
        }
        match &decls[i] {
            Decl::Type(t) => {
                // only a restatement of RangeInput (as documentation) is allowed
                if !str_is(&t.name, "RangeInput") {
                    diags.emit(
                        codes::RESOLVE_STD_DECL,
                        t.name_span,
                        String::from_str("std.tcrf に書ける型宣言は RangeInput だけです"),
                    );
                }
            },
            Decl::Const(c) => {
                diags.emit(
                    codes::RESOLVE_STD_DECL,
                    c.name_span,
                    String::from_str("std.tcrf に C は書けません"),
                );
            },
            Decl::Flow(f) => {
                diags.emit(
                    codes::RESOLVE_STD_DECL,
                    f.name_span,
                    String::from_str("std.tcrf に F は書けません"),
                );
            },
            Decl::Rule(r) => {
                match &r.kind {
                    RuleKind::External { inputs, output, can_fail } => {
                        let found = find_sig(&sigs, r.name.as_str());
                        if found.is_some() {
                            proof {
                                reveal(has_sig_named);
                                let a = choose|a: int| 0 <= a < sigs@.len() && sigs@[a] == *found.unwrap();
                                assert(sigs@[a].name@ == r.name@);
                                assert(has_sig_named(sigs@, r.name@));
                            }
                            diags.emit(
                                codes::RESOLVE_STD_DECL,
                                r.name_span,
                                cat3("`", r.name.as_str(), "` は既に宣言されています"),
                            );
                        } else {
                            // one parameter name per input (none for a Void input)
                            let void_input = inputs.len() == 1 && match &inputs[0] {
                                TypeExpr::Void { .. } => true,
                                _ => false,
                            };
                            if !(r.params.len() == inputs.len() || (r.params.len() == 0
                                && void_input)) {
                                diags.emit(
                                    codes::RESOLVE_STD_DECL,
                                    r.name_span,
                                    String::from_str(
                                        "パラメータ名の個数が入力型の個数と一致しません",
                                    ),
                                );
                            }
                            let mut ok = true;
                            let mut ins: Vec<SigType> = Vec::new();
                            let mut k: usize = 0;
                            while k < inputs.len()
                                invariant
                                    diags.file() == old(diags).file(),
                                    keeps(old(diags).all(), diags.all()),
                                    keeps(d_iter, diags.all()),
                                    k <= inputs@.len(),
                                    ins@.len() == k,
                                    ok == forall|j: int| 0 <= j < k ==> spec_sig_type(#[trigger] inputs@[j]) is Some,
                                    forall|j: int| 0 <= j < k && spec_sig_type(#[trigger] inputs@[j]) is Some ==> spec_sig_type(inputs@[j]) == Some(ins@[j]),
                                decreases inputs@.len() - k,
                            {
                                let st = sig_type(&inputs[k], diags, &mut ok);
                                ins.push(st);
                                k = k + 1;
                            }
                            let out = sig_type(output, diags, &mut ok);
                            if ok {
                                let ghost before = sigs@;
                                sigs.push(
                                    StdSig {
                                        name: r.name.clone(),
                                        inputs: ins,
                                        output: out,
                                        can_fail: *can_fail,
                                    },
                                );
                                proof {
                                    reveal(has_sig_named);
                                    reveal(declared_in);
                                    reveal(declared_as);
                                    let n = before.len() as int;
                                    assert(sigs@[n].name@ == r.name@);
                                    assert(has_sig_named(sigs@, r.name@));
                                    assert forall|j: int| 0 <= j < i && usable_decl(#[trigger] decls@[j]) implies (decls@[j] matches Decl::Rule(r2)
                                        && has_sig_named(sigs@, r2.name@)) by {
                                        if let Decl::Rule(r2) = decls@[j] {
                                            let a = choose|a: int| 0 <= a < before.len() && (#[trigger] before[a]).name@ == r2.name@;
                                            assert(sigs@[a] == before[a]);
                                        }
                                    }
                                }
                            }
                        }
                    },
                    _ => {
                        diags.emit(
                            codes::RESOLVE_STD_DECL,
                            r.name_span,
                            String::from_str(
                                "std.tcrf の R は本体のない宣言 (シグネチャのみ) にしてください",
                            ),
                        );
                    },
                }
            },
        }
        proof {
            assert forall|j: int| 0 <= j < i + 1 && (#[trigger] body_rule_span(decls@[j])) is Some
                implies e311_at(diags.all(), old(diags).all().len() as int, body_rule_span(decls@[j])->0) by {
                if j < i {
                    let sp = body_rule_span(decls@[j])->0;
                    let k = choose|k: int| old(diags).all().len() <= k < d_iter.len() && (#[trigger] d_iter[k]).code == Code::E311
                        && d_iter[k].span == sp;
                    assert(keeps(d_iter, diags.all()));
                    assert(diags.all()[k] == d_iter[k]);
                } else {
                    assert(diags.all().last().code == Code::E311);
                }
            }
            assert forall|a: int| 0 <= a < sigs@.len() implies #[trigger] external_named(decls@, sigs@[a].name@) by {
                if a < s_iter.len() {
                    assert(sigs@[a] == s_iter[a]);
                } else {
                    assert(decls@[i as int] matches Decl::Rule(r) && r.kind is External && r.name@ == sigs@[a].name@);
                }
            }
        }
        i = i + 1;
    }
    sigs
}

/// Variable bindings made while matching a call against a signature.
type Binds = Vec<(String, Type)>;

/// `t` as an argument is seen at the top: a usage type as its inner type.
pub open spec fn seen_through(env: &Env, t: Type) -> Type {
    match env.spec_usage_inner(t) {
        Some(x) => x,
        None => t,
    }
}

/// The type variables of a signature type.
pub open spec fn vars_of(s: SigType) -> Set<Seq<char>>
    decreases s,
{
    match s {
        SigType::Var(v) => set![v@],
        SigType::List(inner) => vars_of(*inner),
        _ => Set::empty(),
    }
}

/// The type variables of the first `n` inputs.
pub open spec fn input_vars(ins: Seq<SigType>, n: int) -> Set<Seq<char>>
    decreases n,
{
    if n <= 0 {
        Set::empty()
    } else {
        input_vars(ins, n - 1).union(vars_of(ins[n - 1]))
    }
}

/// `t` fits `s` inside a type (exactly), the type variables bound as in
/// `sigma`.
pub open spec fn fits(s: SigType, t: Type, sigma: Seq<(String, Type)>, env: &Env) -> bool
    decreases s,
{
    match s {
        SigType::Var(v) => lookup(sigma, v@) == Some(t),
        SigType::Concrete(c) => t == c,
        SigType::List(inner) => match t {
            Type::List(e) => fits(*inner, *e, sigma, env),
            _ => false,
        },
        SigType::RangeInput => spec_is_range_record(t, env),
    }
}

/// `t` fits `s` as a whole argument: a scalar or a list is also taken
/// through a usage type of it; a type variable takes the type as it is.
pub open spec fn fits_top(s: SigType, t: Type, sigma: Seq<(String, Type)>, env: &Env) -> bool {
    match s {
        SigType::Var(v) => lookup(sigma, v@) == Some(t),
        SigType::Concrete(c) => seen_through(env, t) == c,
        SigType::List(inner) => match env.spec_list_elem(t) {
            Some(e) => fits(*inner, e, sigma, env),
            None => false,
        },
        SigType::RangeInput => spec_is_range_record(t, env),
    }
}

/// `sigma` binds exactly the type variables of the inputs, and every
/// argument fits its input.
pub open spec fn solves(sig: &StdSig, args: Seq<Type>, env: &Env, sigma: Seq<(String, Type)>) -> bool {
    &&& args.len() == sig.inputs@.len()
    &&& forall|k: Seq<char>| #[trigger] lookup(sigma, k) is Some <==> input_vars(sig.inputs@, args.len() as int).contains(k)
    &&& forall|i: int| 0 <= i < args.len() ==> fits_top(sig.inputs@[i], #[trigger] args[i], sigma, env)
}

/// A signature type with its type variables replaced as `sigma` binds them
/// (`None` when one is unbound).
pub open spec fn subst(s: SigType, sigma: Seq<(String, Type)>, env: &Env) -> Option<Type>
    decreases s,
{
    match s {
        SigType::Var(v) => lookup(sigma, v@),
        SigType::Concrete(c) => Some(c),
        SigType::List(inner) => match subst(*inner, sigma, env) {
            Some(t) => Some(Type::List(Box::new(t))),
            None => None,
        },
        SigType::RangeInput => match lookup(env.std_types@, "RangeInput"@) {
            Some(id) => Some(Type::Named(id)),
            None => None,
        },
    }
}

/// The first type variable of a signature type.
pub open spec fn first_var_of(s: SigType) -> Option<Seq<char>>
    decreases s,
{
    match s {
        SigType::Var(v) => Some(v@),
        SigType::List(inner) => first_var_of(*inner),
        _ => None,
    }
}

/// The first type variable of the first `n` inputs, left to right.
pub open spec fn first_var(ins: Seq<SigType>, n: int) -> Option<Seq<char>>
    decreases n,
{
    if n <= 0 {
        None
    } else {
        match first_var(ins, n - 1) {
            Some(v) => Some(v),
            None => first_var_of(ins[n - 1]),
        }
    }
}

/// `contains` needs `==` on its elements: the type its first type variable
/// is bound to, seen through a usage type, must be an equatable scalar.
pub open spec fn equality_ok(b: Option<Builtin>, sig: &StdSig, sigma: Seq<(String, Type)>, env: &Env) -> bool {
    b == Some(Builtin::Contains) ==> match first_var(sig.inputs@, sig.inputs@.len() as int) {
        Some(v) => match lookup(sigma, v) {
            Some(t) => seen_through(env, t).spec_is_equatable_scalar(),
            None => true,
        },
        None => true,
    }
}

/// Every binding of `a` is in `b` too.
pub open spec fn agrees(a: Seq<(String, Type)>, b: Seq<(String, Type)>) -> bool {
    forall|k: Seq<char>| #[trigger] lookup(a, k) is Some ==> lookup(b, k) == lookup(a, k)
}

/// `b` is `a` with bindings for (only) the variables of `vs` added, `a`'s
/// entries first.
pub open spec fn extended(a: Seq<(String, Type)>, b: Seq<(String, Type)>, vs: Set<Seq<char>>) -> bool {
    &&& agrees(a, b)
    &&& forall|k: Seq<char>| #[trigger] lookup(b, k) is Some <==> (lookup(a, k) is Some || vs.contains(k))
    &&& a.len() <= b.len()
    &&& forall|i: int| 0 <= i < a.len() ==> #[trigger] b[i] == a[i]
}

proof fn lemma_fits_mono(s: SigType, t: Type, s1: Seq<(String, Type)>, s2: Seq<(String, Type)>, env: &Env)
    requires
        fits(s, t, s1, env),
        agrees(s1, s2),
    ensures
        fits(s, t, s2, env),
    decreases s,
{
    match s {
        SigType::Var(v) => {
            assert(lookup(s1, v@) is Some);
        },
        SigType::List(inner) => {
            if let Type::List(e) = t {
                lemma_fits_mono(*inner, *e, s1, s2, env);
            }
        },
        _ => {},
    }
}

proof fn lemma_fits_top_mono(s: SigType, t: Type, s1: Seq<(String, Type)>, s2: Seq<(String, Type)>, env: &Env)
    requires
        fits_top(s, t, s1, env),
        agrees(s1, s2),
    ensures
        fits_top(s, t, s2, env),
{
    match s {
        SigType::Var(v) => {
            assert(lookup(s1, v@) is Some);
        },
        SigType::List(inner) => {
            lemma_fits_mono(*inner, env.spec_list_elem(t).unwrap(), s1, s2, env);
        },
        _ => {},
    }
}

/// Two bindings under which `t` fits `s` agree on the variables of `s`.
proof fn lemma_fits_determines(s: SigType, t: Type, s1: Seq<(String, Type)>, s2: Seq<(String, Type)>, env: &Env, k: Seq<char>)
    requires
        fits(s, t, s1, env),
        fits(s, t, s2, env),
        vars_of(s).contains(k),
    ensures
        lookup(s1, k) == lookup(s2, k),
    decreases s,
{
    match s {
        SigType::List(inner) => {
            if let Type::List(e) = t {
                lemma_fits_determines(*inner, *e, s1, s2, env, k);
            }
        },
        _ => {},
    }
}

proof fn lemma_fits_top_determines(s: SigType, t: Type, s1: Seq<(String, Type)>, s2: Seq<(String, Type)>, env: &Env, k: Seq<char>)
    requires
        fits_top(s, t, s1, env),
        fits_top(s, t, s2, env),
        vars_of(s).contains(k),
    ensures
        lookup(s1, k) == lookup(s2, k),
{
    match s {
        SigType::List(inner) => {
            lemma_fits_determines(*inner, env.spec_list_elem(t).unwrap(), s1, s2, env, k);
        },
        _ => {},
    }
}

/// A variable of the first `n` inputs is a variable of one of them.
proof fn lemma_input_vars(ins: Seq<SigType>, n: int, k: Seq<char>) -> (j: int)
    requires
        input_vars(ins, n).contains(k),
    ensures
        0 <= j < n,
        vars_of(ins[j]).contains(k),
    decreases n,
{
    if input_vars(ins, n - 1).contains(k) {
        lemma_input_vars(ins, n - 1, k)
    } else {
        n - 1
    }
}

/// `subst` depends only on what the bindings give.
proof fn lemma_subst_same(s: SigType, s1: Seq<(String, Type)>, s2: Seq<(String, Type)>, env: &Env)
    requires
        forall|k: Seq<char>| #[trigger] lookup(s1, k) == lookup(s2, k),
    ensures
        subst(s, s1, env) == subst(s, s2, env),
    decreases s,
{
    match s {
        SigType::Var(v) => {
            assert(lookup(s1, v@) == lookup(s2, v@));
        },
        SigType::List(inner) => {
            lemma_subst_same(*inner, s1, s2, env);
        },
        _ => {},
    }
}

/// The type variables of a call are determined by its arguments: two
/// solutions of one call bind every name alike.
pub proof fn law_solution_unique(sig: &StdSig, args: Seq<Type>, env: &Env, s1: Seq<(String, Type)>, s2: Seq<(String, Type)>)
    requires
        solves(sig, args, env, s1),
        solves(sig, args, env, s2),
    ensures
        forall|k: Seq<char>| #[trigger] lookup(s1, k) == lookup(s2, k),
{
    assert forall|k: Seq<char>| #[trigger] lookup(s1, k) == lookup(s2, k) by {
        if lookup(s1, k) is Some {
            let j = lemma_input_vars(sig.inputs@, args.len() as int, k);
            assert(fits_top(sig.inputs@[j], args[j], s1, env));
            assert(fits_top(sig.inputs@[j], args[j], s2, env));
            lemma_fits_top_determines(sig.inputs@[j], args[j], s1, s2, env, k);
        } else {
            assert(!input_vars(sig.inputs@, args.len() as int).contains(k));
        }
    }
}

/// The bindings made for the first `i` arguments are a solution for them:
/// no solution of the whole call can disagree with them.
proof fn lemma_agrees_with_solution(sig: &StdSig, args: Seq<Type>, env: &Env, bind: Seq<(String, Type)>, i: int, sigma: Seq<(String, Type)>)
    requires
        0 <= i <= args.len(),
        solves(sig, args, env, sigma),
        forall|k: Seq<char>| #[trigger] lookup(bind, k) is Some <==> input_vars(sig.inputs@, i).contains(k),
        forall|j: int| 0 <= j < i ==> fits_top(sig.inputs@[j], #[trigger] args[j], bind, env),
    ensures
        agrees(bind, sigma),
{
    assert forall|k: Seq<char>| #[trigger] lookup(bind, k) is Some implies lookup(sigma, k) == lookup(bind, k) by {
        let j = lemma_input_vars(sig.inputs@, i, k);
        assert(fits_top(sig.inputs@[j], args[j], bind, env));
        assert(fits_top(sig.inputs@[j], args[j], sigma, env));
        lemma_fits_top_determines(sig.inputs@[j], args[j], bind, sigma, env, k);
    }
}

/// Matches the argument types of a call against a signature and gives
/// (result type, may fail). `b` is the builtin implementing the call, for the
/// constraints a signature cannot express (`contains` needs `==` on elements).
/// The call is accepted exactly when some binding of the type variables
/// solves it, meets `contains`' need and gives the output type.
pub fn check(sig: &StdSig, b: Option<Builtin>, args: &[Type], env: &Env) -> (r: Result<
    (Type, bool),
    String,
>)
    ensures
        args@.len() != sig.inputs@.len() ==> r is Err,
        r matches Ok((t, f)) ==> f == sig.can_fail && exists|sigma: Seq<(String, Type)>|
            #[trigger] solves(sig, args@, env, sigma) && equality_ok(b, sig, sigma, env) && subst(sig.output, sigma, env)
                == Some(t),
        (exists|sigma: Seq<(String, Type)>|
            #[trigger] solves(sig, args@, env, sigma) && equality_ok(b, sig, sigma, env) && subst(sig.output, sigma, env)
                is Some) ==> r is Ok,
{
    if args.len() != sig.inputs.len() {
        let want = nat_text(sig.inputs.len() as u64);
        let got = nat_text(args.len() as u64);
        let mut m = cat3("`", sig.name.as_str(), "` は引数を");
        m.append(want.as_str());
        m.append("個取りますが、");
        m.append(got.as_str());
        m.append("個渡されました");
        return Err(m);
    }
    let mut bind: Binds = Vec::new();
    let mut i: usize = 0;
    while i < args.len()
        invariant
            args@.len() == sig.inputs@.len(),
            i <= args@.len(),
            forall|k: Seq<char>| #[trigger] lookup(bind@, k) is Some <==> input_vars(sig.inputs@, i as int).contains(k),
            forall|j: int| 0 <= j < i ==> fits_top(sig.inputs@[j], #[trigger] args@[j], bind@, env),
            match first_var(sig.inputs@, i as int) {
                Some(v) => bind@.len() > 0 && bind@[0].0@ == v,
                None => bind@.len() == 0,
            },
        decreases args@.len() - i,
    {
        let ghost before = bind@;
        match match_top(&sig.inputs[i], &args[i], env, &mut bind) {
            Ok(()) => {},
            Err(e) => {
                proof {
                    assert forall|sigma: Seq<(String, Type)>| !#[trigger] solves(sig, args@, env, sigma) by {
                        if solves(sig, args@, env, sigma) {
                            lemma_agrees_with_solution(sig, args@, env, before, i as int, sigma);
                            assert(fits_top(sig.inputs@[i as int], args@[i as int], sigma, env));
                        }
                    }
                }
                return Err(e);
            },
        }
        proof {
            assert forall|j: int| 0 <= j < i + 1 implies fits_top(sig.inputs@[j], #[trigger] args@[j], bind@, env) by {
                if j < i {
                    lemma_fits_top_mono(sig.inputs@[j], args@[j], before, bind@, env);
                }
            }
        }
        i = i + 1;
    }
    proof {
        assert(solves(sig, args@, env, bind@));
    }
    // contains needs `==` on the element type (a constraint signatures cannot express)
    if b == Some(Builtin::Contains) && bind.len() > 0 {
        let elem = &bind[0].1;
        let inner = match env.usage_inner(elem) {
            Some(t) => t,
            None => elem,
        };
        if !inner.is_equatable_scalar() {
            proof {
                let v = bind@[0].0@;
                assert(crate::types::first_match(bind@, v, 0));
                crate::types::lemma_lookup_found(bind@, v, 0);
                assert forall|sigma: Seq<(String, Type)>| #[trigger] solves(sig, args@, env, sigma) implies !equality_ok(b, sig, sigma, env) by {
                    law_solution_unique(sig, args@, env, bind@, sigma);
                    assert(lookup(sigma, v) == lookup(bind@, v));
                }
            }
            let shown = env.display(elem);
            return Err(cat2(shown.as_str(), " には `==` が定義されていません"));
        }
    }
    proof {
        if b == Some(Builtin::Contains) && bind@.len() > 0 {
            let v = bind@[0].0@;
            assert(crate::types::first_match(bind@, v, 0));
            crate::types::lemma_lookup_found(bind@, v, 0);
        }
        assert(equality_ok(b, sig, bind@, env));
    }
    match instantiate(&sig.output, &bind, env) {
        Some(out) => Ok((out, sig.can_fail)),
        None => {
            proof {
                assert forall|sigma: Seq<(String, Type)>| #[trigger] solves(sig, args@, env, sigma) implies subst(sig.output, sigma, env) is None by {
                    law_solution_unique(sig, args@, env, bind@, sigma);
                    lemma_subst_same(sig.output, bind@, sigma, env);
                }
            }
            Err(String::from_str("出力型の型変数が入力から決まりません"))
        },
    }
}

/// The message for an argument of type `got` where `want` is declared.
pub open spec fn mismatch_text(env: Env, want: Type, got: Type) -> Seq<char> {
    type_text(env, want) + " が必要ですが、"@ + type_text(env, got) + " が渡されました"@
}

fn mismatch(env: &Env, want: &Type, got: &Type) -> (s: String)
    ensures
        s@ == mismatch_text(*env, *want, *got),
{
    let w = env.display(want);
    let g = env.display(got);
    let s = cat5("", w.as_str(), " が必要ですが、", g.as_str(), " が渡されました");
    proof {
        reveal_strlit("");
        assert(s@ =~= mismatch_text(*env, *want, *got));
    }
    s
}

fn bind_var(v: &String, arg: &Type, env: &Env, bind: &mut Binds) -> (r: Result<(), String>)
    ensures
        r is Ok ==> extended(old(bind)@, final(bind)@, set![v@]) && lookup(final(bind)@, v@) == Some(*arg),
        r is Ok && old(bind)@.len() == 0 ==> final(bind)@.len() > 0 && final(bind)@[0].0@ == v@,
        r is Err ==> forall|sigma: Seq<(String, Type)>|
            agrees(old(bind)@, sigma) ==> #[trigger] lookup(sigma, v@) != Some(*arg),
{
    match find(bind, v.as_str()) {
        Some(i) => {
            if bind[i].1.same(arg) {
                proof {
                    assert forall|k: Seq<char>| #[trigger] lookup(bind@, k) is Some <==> (lookup(bind@, k) is Some
                        || set![v@].contains(k)) by {
                        if k == v@ {
                            assert(lookup(bind@, v@) is Some);
                        }
                    }
                }
                Ok(())
            } else {
                proof {
                    assert forall|sigma: Seq<(String, Type)>| agrees(bind@, sigma) implies #[trigger] lookup(sigma, v@)
                        != Some(*arg) by {
                        assert(lookup(bind@, v@) is Some);
                    }
                }
                let p = env.display(&bind[i].1);
                let a = env.display(arg);
                Err(cat6("型変数 ", v.as_str(), " が ", p.as_str(), " と ", a.as_str()).concat(" の両方に一致しません"))
            }
        },
        None => {
            let ghost before = bind@;
            let entry = (v.clone(), arg.copy());
            bind.push(entry);
            proof {
                assert forall|k: Seq<char>| #[trigger] lookup(bind@, k) == if k == v@ {
                    Some(*arg)
                } else {
                    lookup(before, k)
                } by {
                    crate::types::lemma_lookup_push(before, entry, k);
                }
                assert forall|k: Seq<char>| #[trigger] lookup(before, k) is Some implies lookup(bind@, k) == lookup(
                    before,
                    k,
                ) by {
                    assert(lookup(bind@, k) == if k == v@ {
                        Some(*arg)
                    } else {
                        lookup(before, k)
                    });
                }
                assert forall|k: Seq<char>| #[trigger] lookup(bind@, k) is Some <==> (lookup(before, k) is Some
                    || set![v@].contains(k)) by {
                    assert(lookup(bind@, k) == if k == v@ {
                        Some(*arg)
                    } else {
                        lookup(before, k)
                    });
                }
                assert(lookup(bind@, v@) == if v@ == v@ {
                    Some(*arg)
                } else {
                    lookup(before, v@)
                });
            }
            Ok(())
        },
    }
}

/// Is the type a record of exactly `first Int` and `last Int` (RangeInput by structure).
pub open spec fn spec_is_range_record(t: Type, env: &Env) -> bool {
    match t {
        Type::Named(id) => id < env.types@.len() && match env.types@[id as int].kind {
            TypeDefKind::Record(fields) => fields@.len() == 2 && fields@[0].name@ == "first"@
                && fields@[0].ty == Type::Int && fields@[1].name@ == "last"@ && fields@[1].ty
                == Type::Int,
            _ => false,
        },
        _ => false,
    }
}

fn is_range_record(t: &Type, env: &Env) -> (b: bool)
    ensures
        b == spec_is_range_record(*t, env),
{
    if let Type::Named(id) = t {
        if *id < env.types.len() {
            if let TypeDefKind::Record(fields) = &env.types[*id].kind {
                return fields.len() == 2 && str_is(&fields[0].name, "first") && fields[0].ty.same(
                    &Type::Int,
                ) && str_is(&fields[1].name, "last") && fields[1].ty.same(&Type::Int);
            }
        }
    }
    false
}

/// Matching at the top of an argument: usage types of lists and scalars are
/// seen through to their inner type.
fn match_top(s: &SigType, arg: &Type, env: &Env, bind: &mut Binds) -> (r: Result<(), String>)
    ensures
        r is Ok ==> extended(old(bind)@, final(bind)@, vars_of(*s)) && fits_top(*s, *arg, final(bind)@, env),
        r is Ok && old(bind)@.len() == 0 ==> match first_var_of(*s) {
            Some(v) => final(bind)@.len() > 0 && final(bind)@[0].0@ == v,
            None => final(bind)@.len() == 0,
        },
        r is Err ==> forall|sigma: Seq<(String, Type)>|
            agrees(old(bind)@, sigma) ==> !#[trigger] fits_top(*s, *arg, sigma, env),
{
    match s {
        // a type variable binds the type as it is (not seen through)
        SigType::Var(v) => bind_var(v, arg, env, bind),
        SigType::Concrete(t) => {
            let a = match env.usage_inner(arg) {
                Some(x) => x,
                None => arg,
            };
            if a.same(t) {
                Ok(())
            } else {
                Err(mismatch(env, t, arg))
            }
        },
        SigType::List(inner) => match env.as_list_elem(arg) {
            Some(elem) => match_exact(&**inner, elem, env, bind),
            None => {
                let a = env.display(arg);
                Err(cat3("List が必要ですが、", a.as_str(), " が渡されました"))
            },
        },
        SigType::RangeInput => {
            if is_range_record(arg, env) {
                Ok(())
            } else {
                let a = env.display(arg);
                Err(
                    cat3(
                        "first Int / last Int を持つレコード (std.RangeInput) が必要ですが、",
                        a.as_str(),
                        " が渡されました",
                    ),
                )
            }
        },
    }
}

/// Matching inside a type: exact, nothing seen through.
fn match_exact(s: &SigType, arg: &Type, env: &Env, bind: &mut Binds) -> (r: Result<(), String>)
    ensures
        r is Ok ==> extended(old(bind)@, final(bind)@, vars_of(*s)) && fits(*s, *arg, final(bind)@, env),
        r is Ok && old(bind)@.len() == 0 ==> match first_var_of(*s) {
            Some(v) => final(bind)@.len() > 0 && final(bind)@[0].0@ == v,
            None => final(bind)@.len() == 0,
        },
        r is Err ==> forall|sigma: Seq<(String, Type)>|
            agrees(old(bind)@, sigma) ==> !#[trigger] fits(*s, *arg, sigma, env),
    decreases s,
{
    match s {
        SigType::Var(v) => {
            let res = bind_var(v, arg, env, bind);
            proof {
                assert forall|sigma: Seq<(String, Type)>| res is Err && agrees(old(bind)@, sigma) implies !#[trigger] fits(*s, *arg, sigma, env) by {
                    assert(lookup(sigma, v@) != Some(*arg));
                }
            }
            res
        },
        SigType::Concrete(t) => {
            if arg.same(t) {
                proof {
                    assert forall|k: Seq<char>| #[trigger] lookup(bind@, k) is Some <==> (lookup(bind@, k) is Some
                        || vars_of(*s).contains(k)) by {}
                }
                Ok(())
            } else {
                Err(mismatch(env, t, arg))
            }
        },
        SigType::List(inner) => match arg {
            Type::List(elem) => {
                let res = match_exact(&**inner, &**elem, env, bind);
                proof {
                    assert forall|sigma: Seq<(String, Type)>| res is Err && agrees(old(bind)@, sigma) implies !#[trigger] fits(*s, *arg, sigma, env) by {
                        assert(!fits(**inner, **elem, sigma, env));
                    }
                }
                res
            },
            _ => {
                let a = env.display(arg);
                Err(cat3("List が必要ですが、", a.as_str(), " が渡されました"))
            },
        },
        SigType::RangeInput => {
            if is_range_record(arg, env) {
                proof {
                    assert forall|k: Seq<char>| #[trigger] lookup(bind@, k) is Some <==> (lookup(bind@, k) is Some
                        || vars_of(*s).contains(k)) by {}
                }
                Ok(())
            } else {
                let a = env.display(arg);
                Err(cat3("std.RangeInput が必要ですが、", a.as_str(), " が渡されました"))
            }
        },
    }
}

fn instantiate(s: &SigType, bind: &Binds, env: &Env) -> (r: Option<Type>)
    ensures
        r == subst(*s, bind@, env),
    decreases s,
{
    match s {
        SigType::Var(v) => match find(bind, v.as_str()) {
            Some(i) => Some(bind[i].1.copy()),
            None => None,
        },
        SigType::Concrete(t) => Some(t.copy()),
        SigType::List(inner) => match instantiate(&**inner, bind, env) {
            Some(t) => Some(Type::List(Box::new(t))),
            None => None,
        },
        SigType::RangeInput => match env.std_type("RangeInput") {
            Some(id) => Some(Type::Named(id)),
            None => None,
        },
    }
}

} // verus!
