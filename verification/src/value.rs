//! Runtime values. The tag of a usage type is guaranteed by the type checker,
//! so a value does not carry it at run time.
use crate::decimal::{dec_same_value, decimal_equal, Dec};
use crate::text_fmt::str_eq;
use crate::types::TypeId;
use vstd::prelude::*;
use vstd::string::*;

verus! {

#[derive(Debug)]
pub enum Value {
    Int(i64),
    Decimal(Dec),
    Text(String),
    Char(char),
    Bool(bool),
    Void,
    List(Vec<Value>),
    Record(RecordValue),
    Adt { type_id: TypeId, ctor: usize, payload: Option<Box<Value>> },
}

#[derive(Debug)]
pub struct RecordValue {
    pub type_id: TypeId,
    /// In the order the fields are declared in the type definition
    pub fields: Vec<Value>,
}

/// What `==` decides: equal scalars of one kind (decimals by number, so `1.0`
/// equals `1.00`); values of other kinds are never equal (the type checker
/// allows `==` on scalars and usage types of scalars only).
pub open spec fn spec_equals(a: Value, b: Value) -> bool {
    match (a, b) {
        (Value::Int(x), Value::Int(y)) => x == y,
        (Value::Decimal(x), Value::Decimal(y)) => x.wf() && y.wf() && dec_same_value(x, y),
        (Value::Text(x), Value::Text(y)) => x@ == y@,
        (Value::Char(x), Value::Char(y)) => x == y,
        (Value::Bool(x), Value::Bool(y)) => x == y,
        (Value::Void, Value::Void) => true,
        _ => false,
    }
}

/// `b` has the kind of `a` and its outermost content: scalars equal, lists of
/// the same length, records of one type and field count, ADT values of one
/// constructor.
pub open spec fn same_top(a: Value, b: Value) -> bool {
    match (a, b) {
        (Value::List(x), Value::List(y)) => x@.len() == y@.len(),
        (Value::Record(x), Value::Record(y)) => x.type_id == y.type_id && x.fields@.len()
            == y.fields@.len(),
        (
            Value::Adt { type_id: t1, ctor: c1, payload: p1 },
            Value::Adt { type_id: t2, ctor: c2, payload: p2 },
        ) => t1 == t2 && c1 == c2 && (p1 is Some <==> p2 is Some),
        (Value::Text(x), Value::Text(y)) => x@ == y@,
        (Value::List(_), _) | (Value::Record(_), _) | (Value::Adt { .. }, _) | (Value::Text(_), _) => false,
        _ => a == b,
    }
}

/// `a` and `b` are the same value: of one kind, with equal contents all the
/// way down (texts by their characters, lists element by element).
pub open spec fn same_value(a: Value, b: Value) -> bool
    decreases a,
{
    match (a, b) {
        (Value::List(x), Value::List(y)) => x@.len() == y@.len() && forall|i: int|
            #![trigger x@[i], y@[i]]
            0 <= i < x@.len() ==> same_value(x@[i], y@[i]),
        (Value::Record(x), Value::Record(y)) => x.type_id == y.type_id && x.fields@.len()
            == y.fields@.len() && forall|i: int|
            #![trigger x.fields@[i], y.fields@[i]]
            0 <= i < x.fields@.len() ==> same_value(x.fields@[i], y.fields@[i]),
        (
            Value::Adt { type_id: t1, ctor: c1, payload: p1 },
            Value::Adt { type_id: t2, ctor: c2, payload: p2 },
        ) => t1 == t2 && c1 == c2 && match (p1, p2) {
            (Some(v1), Some(v2)) => same_value(*v1, *v2),
            (None, None) => true,
            _ => false,
        },
        (Value::Text(x), Value::Text(y)) => x@ == y@,
        (Value::List(_), _) | (Value::Record(_), _) | (Value::Adt { .. }, _) | (Value::Text(_), _) => false,
        _ => a == b,
    }
}

/// Every value is the same as itself.
pub proof fn lemma_same_value_refl(a: Value)
    ensures
        same_value(a, a),
    decreases a,
{
    reveal_with_fuel(same_value, 2);
    match a {
        Value::List(x) => {
            assert forall|i: int| 0 <= i < x@.len() implies same_value(#[trigger] x@[i], x@[i]) by {
                assert(decreases_to!(x => x@));
                assert(decreases_to!(x@ => x@[i]));
                lemma_same_value_refl(x@[i]);
            }
        },
        Value::Record(x) => {
            assert forall|i: int| 0 <= i < x.fields@.len() implies same_value(#[trigger] x.fields@[i], x.fields@[i]) by {
                assert(decreases_to!(x => x.fields));
                assert(decreases_to!(x.fields => x.fields@));
                assert(decreases_to!(x.fields@ => x.fields@[i]));
                lemma_same_value_refl(x.fields@[i]);
            }
        },
        Value::Adt { payload: Some(p), .. } => {
            lemma_same_value_refl(*p);
        },
        _ => {},
    }
}

/// Being the same value carries over: `a` is `b` and `b` is `c`, so `a` is `c`.
pub proof fn lemma_same_value_trans(a: Value, b: Value, c: Value)
    requires
        same_value(a, b),
        same_value(b, c),
    ensures
        same_value(a, c),
    decreases a,
{
    reveal_with_fuel(same_value, 2);
    match a {
        Value::List(x) => {
            let y = b->List_0;
            let z = c->List_0;
            assert forall|i: int| 0 <= i < x@.len() implies same_value(#[trigger] x@[i], z@[i]) by {
                assert(decreases_to!(x => x@));
                assert(decreases_to!(x@ => x@[i]));
                assert(same_value(x@[i], y@[i]));
                assert(same_value(y@[i], z@[i]));
                lemma_same_value_trans(x@[i], y@[i], z@[i]);
            }
        },
        Value::Record(x) => {
            let y = b->Record_0;
            let z = c->Record_0;
            assert forall|i: int| 0 <= i < x.fields@.len() implies same_value(#[trigger] x.fields@[i], z.fields@[i]) by {
                assert(decreases_to!(x => x.fields));
                assert(decreases_to!(x.fields => x.fields@));
                assert(decreases_to!(x.fields@ => x.fields@[i]));
                assert(same_value(x.fields@[i], y.fields@[i]));
                assert(same_value(y.fields@[i], z.fields@[i]));
                lemma_same_value_trans(x.fields@[i], y.fields@[i], z.fields@[i]);
            }
        },
        Value::Adt { payload: Some(p), .. } => {
            let q = b->payload.unwrap();
            let w = c->payload.unwrap();
            lemma_same_value_trans(*p, *q, *w);
        },
        _ => {},
    }
}

impl Value {
    /// A text value.
    pub fn text(s: &str) -> (v: Value)
        ensures
            v matches Value::Text(t) && t@ == s@,
    {
        Value::Text(String::from_str(s))
    }

    /// `==` at run time (for the scalars, and inner values of usage types, that
    /// the type checker allows it on).
    pub fn equals(&self, other: &Value) -> (b: bool)
        ensures
            b == spec_equals(*self, *other),
            eq_scalar(*self) && !(*self is Decimal) ==> (b <==> same_value(*self, *other)),
            eq_scalar(*self) && same_value(*self, *other) ==> b,
            *self is Decimal && *other is Decimal ==> (b <==> self->Decimal_0.wf() && other->Decimal_0.wf()
                && crate::decimal::dec_same_value(self->Decimal_0, other->Decimal_0)),
    {
        match (self, other) {
            (Value::Int(a), Value::Int(b)) => *a == *b,
            (Value::Decimal(a), Value::Decimal(b)) => a.is_wf() && b.is_wf() && decimal_equal(*a, *b),
            (Value::Text(a), Value::Text(b)) => str_eq(a.as_str(), b.as_str()),
            (Value::Char(a), Value::Char(b)) => *a == *b,
            (Value::Bool(a), Value::Bool(b)) => *a == *b,
            (Value::Void, Value::Void) => true,
            _ => false,
        }
    }

    /// A copy of the value.
    #[verifier::loop_isolation(false)]
    pub fn dup(&self) -> (r: Value)
        ensures
            same_top(*self, r),
            same_value(*self, r),
        decreases self,
    {
        match self {
            Value::Int(n) => Value::Int(*n),
            Value::Decimal(d) => Value::Decimal(*d),
            Value::Text(s) => Value::Text(s.clone()),
            Value::Char(c) => Value::Char(*c),
            Value::Bool(b) => Value::Bool(*b),
            Value::Void => Value::Void,
            Value::List(xs) => Value::List(dup_all(xs)),
            Value::Record(rec) => {
                proof {
                    assert(decreases_to!(rec => rec.fields));
                }
                Value::Record(RecordValue { type_id: rec.type_id, fields: dup_all(&rec.fields) })
            },
            Value::Adt { type_id, ctor, payload } => {
                let p = match payload {
                    Some(b) => Some(Box::new((**b).dup())),
                    None => None,
                };
                Value::Adt { type_id: *type_id, ctor: *ctor, payload: p }
            },
        }
    }
}

/// Copies of the values, in order.
#[verifier::loop_isolation(false)]
pub fn dup_all(xs: &Vec<Value>) -> (r: Vec<Value>)
    ensures
        r@.len() == xs@.len(),
        forall|i: int| 0 <= i < xs@.len() ==> same_top(#[trigger] xs@[i], r@[i]),
        forall|i: int| 0 <= i < xs@.len() ==> same_value(#[trigger] xs@[i], r@[i]),
    decreases xs,
{
    let mut out: Vec<Value> = Vec::new();
    let mut i: usize = 0;
    while i < xs.len()
        invariant
            i <= xs@.len(),
            out@.len() == i,
            forall|j: int| 0 <= j < i ==> same_top(#[trigger] xs@[j], out@[j]),
            forall|j: int| 0 <= j < i ==> same_value(#[trigger] xs@[j], out@[j]),
        decreases xs@.len() - i,
    {
        proof {
            assert(decreases_to!(xs => xs@));
            assert(decreases_to!(xs@ => xs@[i as int]));
        }
        let c = xs[i].dup();
        out.push(c);
        i = i + 1;
    }
    out
}

/// A value that `==` is meant for: an integer, a well-formed decimal, a
/// text, a character, a boolean or Void.
pub open spec fn eq_scalar(v: Value) -> bool {
    match v {
        Value::Int(_) | Value::Text(_) | Value::Char(_) | Value::Bool(_) | Value::Void => true,
        Value::Decimal(d) => d.wf(),
        _ => false,
    }
}

/// `==` holds of every such value and itself.
pub proof fn law_equals_reflexive(v: Value)
    requires
        eq_scalar(v),
    ensures
        spec_equals(v, v),
{
}

/// On integers, texts, characters, booleans and Void, `==` holds exactly
/// when the two are the same value: two booleans exactly when they are the
/// same boolean.
pub proof fn law_equals_same_value(a: Value, b: Value)
    requires
        eq_scalar(a),
        !(a is Decimal),
    ensures
        spec_equals(a, b) == same_value(a, b),
        a matches Value::Bool(x) ==> (b matches Value::Bool(y) ==> (spec_equals(a, b) <==> x == y)),
{
}

} // verus!
