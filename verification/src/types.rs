//! Resolved types and the declaration environment.
use crate::builtins::StdModule;
use crate::span::Span;
use crate::stdsig::StdSig;
use crate::text_fmt::{cat2, cat3, str_is};
use vstd::prelude::*;
use vstd::string::*;

verus! {

pub type TypeId = usize;

/// A resolved type. Named types refer to the `TypeDef` table.
#[derive(Debug, PartialEq, Eq)]
pub enum Type {
    Int,
    Decimal,
    Text,
    Char,
    Bool,
    Void,
    List(Box<Type>),
    Named(TypeId),
}

impl Type {
    pub open spec fn spec_is_numeric(&self) -> bool {
        self is Int || self is Decimal
    }

    /// Types with `==` / `!=` (builtin scalars).
    pub open spec fn spec_is_equatable_scalar(&self) -> bool {
        self is Int || self is Decimal || self is Text || self is Char || self is Bool
    }

    /// Types with `<` and the other order comparisons.
    pub open spec fn spec_is_ordered_scalar(&self) -> bool {
        self is Int || self is Decimal || self is Text || self is Char
    }

    pub fn is_numeric(&self) -> (b: bool)
        ensures
            b == self.spec_is_numeric(),
    {
        match self {
            Type::Int | Type::Decimal => true,
            _ => false,
        }
    }

    pub fn is_equatable_scalar(&self) -> (b: bool)
        ensures
            b == self.spec_is_equatable_scalar(),
    {
        match self {
            Type::Int | Type::Decimal | Type::Text | Type::Char | Type::Bool => true,
            _ => false,
        }
    }

    pub fn is_ordered_scalar(&self) -> (b: bool)
        ensures
            b == self.spec_is_ordered_scalar(),
    {
        match self {
            Type::Int | Type::Decimal | Type::Text | Type::Char => true,
            _ => false,
        }
    }

    /// An equal copy of the type.
    pub fn copy(&self) -> (t: Type)
        ensures
            t == *self,
        decreases self,
    {
        match self {
            Type::Int => Type::Int,
            Type::Decimal => Type::Decimal,
            Type::Text => Type::Text,
            Type::Char => Type::Char,
            Type::Bool => Type::Bool,
            Type::Void => Type::Void,
            Type::List(e) => Type::List(Box::new((**e).copy())),
            Type::Named(id) => Type::Named(*id),
        }
    }

    /// Structural equality of types.
    pub fn same(&self, other: &Type) -> (b: bool)
        ensures
            b == (*self == *other),
        decreases self,
    {
        match (self, other) {
            (Type::Int, Type::Int) => true,
            (Type::Decimal, Type::Decimal) => true,
            (Type::Text, Type::Text) => true,
            (Type::Char, Type::Char) => true,
            (Type::Bool, Type::Bool) => true,
            (Type::Void, Type::Void) => true,
            (Type::List(a), Type::List(b)) => (**a).same(&**b),
            (Type::Named(a), Type::Named(b)) => *a == *b,
            _ => false,
        }
    }
}

/// Every type that is ordered is equatable, and every numeric type is ordered.
pub proof fn law_scalar_classes(t: Type)
    ensures
        t.spec_is_numeric() ==> t.spec_is_ordered_scalar(),
        t.spec_is_ordered_scalar() ==> t.spec_is_equatable_scalar(),
{
}

#[derive(Debug)]
pub struct TypeDef {
    pub name: String,
    /// The module (unit number) that defines the type.
    pub module: usize,
    pub span: Span,
    pub kind: TypeDefKind,
}

#[derive(Debug)]
pub enum TypeDefKind {
    /// Usage type (its inner type)
    Usage(Type),
    Record(Vec<FieldDef>),
    Adt(Vec<CtorDef>),
    /// Placeholder after a resolution error
    Broken,
}

#[derive(Debug)]
pub struct FieldDef {
    pub name: String,
    pub ty: Type,
}

#[derive(Debug)]
pub struct CtorDef {
    pub name: String,
    pub payload: Option<Type>,
}

/// A rule: its declaration (an index into its module's declarations) and signature.
#[derive(Debug)]
pub struct RuleInfo {
    pub decl: usize,
    pub input: Type,
    pub output: Type,
    pub can_fail: bool,
    /// A representation-preserving transition (`=>`)
    pub transition: bool,
}

/// A flow: its declaration (an index into its module's declarations) and signature.
#[derive(Debug)]
pub struct FlowInfo {
    pub decl: usize,
    pub input: Type,
    pub output: Type,
    pub can_fail: bool,
    pub has_signature: bool,
}

/// What an import refers to: a builtin std module or a user module (unit number).
#[derive(Debug, Clone, Copy, PartialEq, Eq, Structural)]
pub enum ModuleRef {
    Std(StdModule),
    User(usize),
}

/// The names of one module; each list keeps the first entry of a name.
#[derive(Debug)]
pub struct ModuleEnv {
    /// import alias → module
    pub aliases: Vec<(String, ModuleRef)>,
    /// type name defined here → TypeId (the definitions live in `Env::types`)
    pub type_names: Vec<(String, TypeId)>,
    /// ADT constructor name → (TypeId of the ADT, constructor number)
    pub ctors: Vec<(String, (TypeId, usize))>,
    /// constant name → index of its declaration
    pub consts: Vec<(String, usize)>,
    /// constant names in dependency order (evaluate earlier ones first)
    pub const_order: Vec<String>,
    pub rules: Vec<(String, RuleInfo)>,
    pub flows: Vec<(String, FlowInfo)>,
}

/// `i` is the first entry of `list` named `key`.
pub open spec fn first_match<V>(list: Seq<(String, V)>, key: Seq<char>, i: int) -> bool {
    &&& 0 <= i < list.len()
    &&& list[i].0@ == key
    &&& forall|j: int| 0 <= j < i ==> (#[trigger] list[j]).0@ != key
}

/// What an association list gives for `key`: the value of its first entry of that name.
pub open spec fn lookup<V>(list: Seq<(String, V)>, key: Seq<char>) -> Option<V> {
    if exists|i: int| first_match(list, key, i) {
        Some(list[choose|i: int| first_match(list, key, i)].1)
    } else {
        None
    }
}

pub proof fn lemma_lookup_found<V>(list: Seq<(String, V)>, key: Seq<char>, i: int)
    requires
        first_match(list, key, i),
    ensures
        lookup(list, key) == Some(list[i].1),
{
    let k = choose|k: int| first_match(list, key, k);
    assert(first_match(list, key, k));
    if k < i {
        assert(list[k].0@ != key);
    }
    if i < k {
        assert(list[i].0@ != key);
    }
}

/// Pushing an entry keeps what the list gives for every name it already had,
/// and gives something for the pushed name.
pub proof fn lemma_lookup_push_kept<V>(list: Seq<(String, V)>, entry: (String, V))
    ensures
        forall|key: Seq<char>| #[trigger] lookup(list, key) is Some ==> lookup(list.push(entry), key) == lookup(list, key),
        lookup(list.push(entry), entry.0@) is Some,
{
    assert forall|key: Seq<char>| #[trigger] lookup(list, key) is Some implies lookup(list.push(entry), key) == lookup(list, key) by {
        let i = choose|i: int| first_match(list, key, i);
        lemma_lookup_found(list, key, i);
        assert(first_match(list.push(entry), key, i));
        lemma_lookup_found(list.push(entry), key, i);
    }
    if lookup(list, entry.0@) is None {
        lemma_lookup_push(list, entry, entry.0@);
    }
}

/// A name that some entry has is found.
pub proof fn lemma_lookup_has<V>(list: Seq<(String, V)>, i: int)
    requires
        0 <= i < list.len(),
    ensures
        lookup(list, list[i].0@) is Some,
    decreases i,
{
    let key = list[i].0@;
    if exists|j: int| 0 <= j < i && (#[trigger] list[j]).0@ == key {
        let j = choose|j: int| 0 <= j < i && (#[trigger] list[j]).0@ == key;
        lemma_lookup_has(list, j);
    } else {
        assert(first_match(list, key, i));
        lemma_lookup_found(list, key, i);
    }
}

pub proof fn lemma_lookup_absent<V>(list: Seq<(String, V)>, key: Seq<char>)
    requires
        forall|j: int| 0 <= j < list.len() ==> (#[trigger] list[j]).0@ != key,
    ensures
        lookup(list, key) is None,
{
    if exists|i: int| first_match(list, key, i) {
        let k = choose|k: int| first_match(list, key, k);
        assert(list[k].0@ != key);
    }
}

/// Pushing an entry whose name is new makes it what the list gives for that name,
/// and leaves every other name as it was.
pub proof fn lemma_lookup_push<V>(list: Seq<(String, V)>, entry: (String, V), key: Seq<char>)
    requires
        lookup(list, entry.0@) is None,
    ensures
        lookup(list.push(entry), key) == if key == entry.0@ {
            Some(entry.1)
        } else {
            lookup(list, key)
        },
{
    let l2 = list.push(entry);
    if exists|i: int| first_match(list, key, i) {
        let k = choose|k: int| first_match(list, key, k);
        assert(first_match(l2, key, k));
        lemma_lookup_found(l2, key, k);
        if key == entry.0@ {
            assert(lookup(list, entry.0@) is Some);
        }
    } else if key == entry.0@ {
        assert forall|j: int| 0 <= j < list.len() implies (#[trigger] l2[j]).0@ != key by {
            if l2[j].0@ == key {
                assert(first_match(list, key, j) || exists|i: int| first_match(list, key, i)) by {
                    lemma_first_exists(list, key, j);
                }
            }
        }
        assert(first_match(l2, key, list.len() as int));
        lemma_lookup_found(l2, key, list.len() as int);
    } else {
        assert forall|j: int| 0 <= j < l2.len() implies (#[trigger] l2[j]).0@ != key by {
            if j < list.len() && l2[j].0@ == key {
                lemma_first_exists(list, key, j);
            }
        }
        lemma_lookup_absent(l2, key);
    }
}

/// An entry named `key` means there is a first such entry.
pub proof fn lemma_first_exists<V>(list: Seq<(String, V)>, key: Seq<char>, j: int)
    requires
        0 <= j < list.len(),
        list[j].0@ == key,
    ensures
        exists|i: int| first_match(list, key, i),
    decreases j,
{
    if exists|k: int| 0 <= k < j && (#[trigger] list[k]).0@ == key {
        let k = choose|k: int| 0 <= k < j && (#[trigger] list[k]).0@ == key;
        lemma_first_exists(list, key, k);
    } else {
        assert(first_match(list, key, j));
    }
}

/// The index of the first entry whose name is `key`.
pub fn find<V>(list: &Vec<(String, V)>, key: &str) -> (r: Option<usize>)
    ensures
        r matches Some(i) ==> first_match(list@, key@, i as int) && lookup(list@, key@) == Some(
            list@[i as int].1,
        ),
        r is None ==> forall|j: int| 0 <= j < list@.len() ==> (#[trigger] list@[j]).0@ != key@,
        r is None <==> lookup(list@, key@) is None,
{
    let mut i: usize = 0;
    while i < list.len()
        invariant
            0 <= i <= list@.len(),
            forall|j: int| 0 <= j < i ==> (#[trigger] list@[j]).0@ != key@,
        decreases list@.len() - i,
    {
        if str_is(&list[i].0, key) {
            proof {
                lemma_lookup_found(list@, key@, i as int);
            }
            return Some(i);
        }
        i = i + 1;
    }
    proof {
        lemma_lookup_absent(list@, key@);
    }
    None
}

/// Is `key` a name in the list.
pub fn has_key<V>(list: &Vec<(String, V)>, key: &str) -> (b: bool)
    ensures
        b == exists|j: int| 0 <= j < list@.len() && (#[trigger] list@[j]).0@ == key@,
        b == (lookup(list@, key@) is Some),
{
    match find(list, key) {
        Some(i) => {
            assert(list@[i as int].0@ == key@);
            true
        },
        None => false,
    }
}

impl ModuleEnv {
    pub fn new() -> (m: ModuleEnv)
        ensures
            m.aliases@.len() == 0,
            m.type_names@.len() == 0,
            m.ctors@.len() == 0,
            m.consts@.len() == 0,
            m.const_order@.len() == 0,
            m.rules@.len() == 0,
            m.flows@.len() == 0,
    {
        ModuleEnv {
            aliases: Vec::new(),
            type_names: Vec::new(),
            ctors: Vec::new(),
            consts: Vec::new(),
            const_order: Vec::new(),
            rules: Vec::new(),
            flows: Vec::new(),
        }
    }

    pub fn alias(&self, q: &str) -> (r: Option<ModuleRef>)
        ensures
            r == lookup(self.aliases@, q@),
    {
        match find(&self.aliases, q) {
            Some(i) => Some(self.aliases[i].1),
            None => None,
        }
    }

    pub fn type_id(&self, name: &str) -> (r: Option<TypeId>)
        ensures
            r == lookup(self.type_names@, name@),
    {
        match find(&self.type_names, name) {
            Some(i) => Some(self.type_names[i].1),
            None => None,
        }
    }

    pub fn ctor(&self, name: &str) -> (r: Option<(TypeId, usize)>)
        ensures
            r == lookup(self.ctors@, name@),
    {
        match find(&self.ctors, name) {
            Some(i) => Some(self.ctors[i].1),
            None => None,
        }
    }

    pub fn rule(&self, name: &str) -> (r: Option<&RuleInfo>)
        ensures
            r matches Some(info) ==> lookup(self.rules@, name@) == Some(*info),
            r is None <==> lookup(self.rules@, name@) is None,
    {
        match find(&self.rules, name) {
            Some(i) => Some(&self.rules[i].1),
            None => None,
        }
    }

    pub fn flow(&self, name: &str) -> (r: Option<&FlowInfo>)
        ensures
            r matches Some(info) ==> lookup(self.flows@, name@) == Some(*info),
            r is None <==> lookup(self.flows@, name@) is None,
    {
        match find(&self.flows, name) {
            Some(i) => Some(&self.flows[i].1),
            None => None,
        }
    }

    pub fn konst(&self, name: &str) -> (r: Option<usize>)
        ensures
            r == lookup(self.consts@, name@),
    {
        match find(&self.consts, name) {
            Some(i) => Some(self.consts[i].1),
            None => None,
        }
    }
}

/// The entry module's number (the file being run).
pub const ENTRY: usize = 0;

/// The result of name resolution, read by the type checker and the evaluator.
#[derive(Debug)]
pub struct Env {
    /// Type definitions of all modules
    pub types: Vec<TypeDef>,
    /// Builtin std type names (RangeInput) → TypeId
    pub std_types: Vec<(String, TypeId)>,
    /// The names of each module, in unit order (0 = entry)
    pub modules: Vec<ModuleEnv>,
    /// Dotted module names (the entry's is empty), for display
    pub module_names: Vec<String>,
    /// Dependency order (dependencies first); the entry comes last
    pub order: Vec<usize>,
    /// Signatures of the standard library declared in std.tcrf (empty without std)
    pub std_sigs: Vec<StdSig>,
}

/// A type's name as diagnostic messages show it: a type of another module is
/// qualified by the last part of that module's name.
pub open spec fn type_text(env: Env, ty: Type) -> Seq<char>
    decreases ty,
{
    match ty {
        Type::Int => "Int"@,
        Type::Decimal => "Decimal"@,
        Type::Text => "Text"@,
        Type::Char => "Char"@,
        Type::Bool => "Bool"@,
        Type::Void => "Void"@,
        Type::List(elem) => "List<"@ + type_text(env, *elem) + ">"@,
        Type::Named(id) => if id >= env.types@.len() {
            "?"@
        } else {
            let def = env.types@[id as int];
            if def.module >= env.module_names@.len() || env.module_names@[def.module as int]@.len() == 0 {
                def.name@
            } else {
                crate::text_fmt::after_last_dot(env.module_names@[def.module as int]@) + "."@ + def.name@
            }
        },
    }
}

impl Env {
    pub fn type_def(&self, id: TypeId) -> (d: &TypeDef)
        requires
            id < self.types@.len(),
        ensures
            *d == self.types@[id as int],
    {
        &self.types[id]
    }

    /// The definition of a type id, if it is one.
    pub fn get_type(&self, id: TypeId) -> (d: Option<&TypeDef>)
        ensures
            id < self.types@.len() ==> d == Some(&self.types@[id as int]),
            id >= self.types@.len() ==> d is None,
    {
        if id < self.types.len() {
            Some(&self.types[id])
        } else {
            None
        }
    }

    /// The inner type of a usage type.
    pub open spec fn spec_usage_inner(&self, ty: Type) -> Option<Type> {
        match ty {
            Type::Named(id) => if id < self.types@.len() {
                match self.types@[id as int].kind {
                    TypeDefKind::Usage(inner) => Some(inner),
                    _ => None,
                }
            } else {
                None
            },
            _ => None,
        }
    }

    /// The inner type of a usage type.
    pub fn usage_inner<'a>(&'a self, ty: &'a Type) -> (r: Option<&'a Type>)
        ensures
            r matches Some(t) ==> self.spec_usage_inner(*ty) == Some(*t),
            r is None <==> self.spec_usage_inner(*ty) is None,
    {
        if let Type::Named(id) = ty {
            if *id < self.types.len() {
                if let TypeDefKind::Usage(inner) = &self.types[*id].kind {
                    return Some(inner);
                }
            }
        }
        None
    }

    /// The element type of a list, or of a usage type whose inner type is a list.
    pub open spec fn spec_list_elem(&self, ty: Type) -> Option<Type> {
        match ty {
            Type::List(elem) => Some(*elem),
            Type::Named(_) => match self.spec_usage_inner(ty) {
                Some(Type::List(elem)) => Some(*elem),
                _ => None,
            },
            _ => None,
        }
    }

    pub fn as_list_elem<'a>(&'a self, ty: &'a Type) -> (r: Option<&'a Type>)
        ensures
            r matches Some(t) ==> self.spec_list_elem(*ty) == Some(*t),
            r is None <==> self.spec_list_elem(*ty) is None,
    {
        match ty {
            Type::List(elem) => Some(&**elem),
            Type::Named(_) => match self.usage_inner(ty) {
                Some(Type::List(elem)) => Some(&**elem),
                _ => None,
            },
            _ => None,
        }
    }

    /// A type's name for diagnostic messages.
    pub fn display(&self, ty: &Type) -> (s: String)
        ensures
            s@ == type_text(*self, *ty),
        decreases ty,
    {
        match ty {
            Type::Int => String::from_str("Int"),
            Type::Decimal => String::from_str("Decimal"),
            Type::Text => String::from_str("Text"),
            Type::Char => String::from_str("Char"),
            Type::Bool => String::from_str("Bool"),
            Type::Void => String::from_str("Void"),
            Type::List(elem) => {
                let inner = self.display(&**elem);
                cat3("List<", inner.as_str(), ">")
            },
            Type::Named(id) => {
                if *id >= self.types.len() {
                    return String::from_str("?");
                }
                let def = &self.types[*id];
                if def.module >= self.module_names.len() || self.module_names[def.module].as_str().is_empty() {
                    def.name.clone()
                } else {
                    // types of another module are shown with the module's default qualifier
                    let last = crate::text_fmt::last_segment(self.module_names[def.module].as_str());
                    cat3(last.as_str(), ".", def.name.as_str())
                }
            },
        }
    }

    pub fn std_type(&self, name: &str) -> (r: Option<TypeId>)
        ensures
            r == lookup(self.std_types@, name@),
    {
        match find(&self.std_types, name) {
            Some(i) => Some(self.std_types[i].1),
            None => None,
        }
    }
}

} // verus!
