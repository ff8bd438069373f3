//! The tree-walking evaluator. It runs programs that passed the checks; an
//! error of the program (`Error`) travels as the `Err` of a result and is no
//! value (a program cannot look inside it). Names are resolved in the
//! namespace of the module `m` the code belongs to.
use crate::ast::{BinOp, Block, Decl, Expr, FlowStep, RecordFieldInit, RuleKind, UnaryOp};
use crate::builtins;
use crate::builtins::Io;
use crate::decimal::{
    dec_checked_add, dec_checked_div, dec_checked_mul, dec_checked_sub, dec_is_zero, dec_neg,
    dec_zero, decimal_add, decimal_div, decimal_equal, decimal_less, decimal_mul, decimal_sub,
    Dec,
};
use crate::loader::Loaded;
use crate::span::Span;
use crate::text::text_less;
use crate::text_fmt::{cat2, cat4, i64_text, nat_text, str_eq, str_is};
use crate::types::{find, lookup, Env, ModuleRef, Type, TypeDefKind, TypeId, ENTRY};
use crate::value::{RecordValue, Value};
use vstd::prelude::*;
use vstd::string::*;

verus! {

/// How deep calls of rules and flows may nest; deeper is an error of the
/// program, reported before the machine's stack runs out.
pub const MAX_DEPTH: usize = 10000;

/// An error of a running program. The program cannot look inside it; when it
/// reaches `main` it is reported with where it arose.
#[derive(Debug)]
pub struct RuntimeError {
    pub message: String,
    /// the module (unit number) where it arose
    pub file: usize,
    pub span: Option<Span>,
    /// the rules and flows it went through, innermost first
    pub trace: Vec<String>,
}

impl RuntimeError {
    pub fn new(message: String, file: usize, span: Span) -> (e: RuntimeError)
        ensures
            e.message == message,
            e.file == file,
            e.span == Some(span),
            e.trace@.len() == 0,
    {
        RuntimeError { message, file, span: Some(span), trace: Vec::new() }
    }
}

/// Why an integer operation has no result.
#[derive(Debug, Clone, Copy, PartialEq, Eq, Structural)]
pub enum IntFault {
    DivByZero,
    Overflow,
}

/// Quotient rounded toward zero (the `/` of `i64`).
pub open spec fn tdiv(a: int, b: int) -> int {
    let q = (if a < 0 { -a } else { a }) / (if b < 0 { -b } else { b });
    if (a < 0) != (b < 0) {
        -q
    } else {
        q
    }
}

/// What an arithmetic operator gives on two `Int`s. `+`, `-` and `*` never
/// fail (`Int + Int > Int` has no `! Error`): the exact result where it fits
/// `i64`, else that result wrapped around to `i64` (two's complement). `/`
/// and `%` fail on a zero divisor; `/` rounds toward zero and fails where the
/// quotient does not fit (`i64::MIN / -1`); `%` takes the dividend's sign and
/// always fits (`i64::MIN % -1` is 0).
pub open spec fn spec_int_arith(op: BinOp, a: i64, b: i64) -> Result<i64, IntFault> {
    if (op == BinOp::Div || op == BinOp::Rem) && b == 0 {
        Err(IntFault::DivByZero)
    } else {
        match op {
            BinOp::Add => Ok(a.wrapping_add(b)),
            BinOp::Sub => Ok(a.wrapping_sub(b)),
            BinOp::Mul => Ok(a.wrapping_mul(b)),
            BinOp::Div => if i64::MIN <= tdiv(a as int, b as int) <= i64::MAX {
                Ok(tdiv(a as int, b as int) as i64)
            } else {
                Err(IntFault::Overflow)
            },
            _ => Ok((a - b * tdiv(a as int, b as int)) as i64),
        }
    }
}

/// `+`, `-` and `*` on `Int` never fail, and give the exact result wherever
/// it fits `i64`; `/` and `%` give the exact quotient and remainder wherever
/// the divisor is not zero and the quotient fits.
pub proof fn law_int_exact(op: BinOp, a: i64, b: i64)
    requires
        op == BinOp::Add || op == BinOp::Sub || op == BinOp::Mul || op == BinOp::Div || op == BinOp::Rem,
    ensures
        op == BinOp::Add || op == BinOp::Sub || op == BinOp::Mul ==> spec_int_arith(op, a, b) is Ok,
        op == BinOp::Add && i64::MIN <= a + b <= i64::MAX ==> spec_int_arith(op, a, b) == Ok::<i64, IntFault>((a + b) as i64),
        op == BinOp::Sub && i64::MIN <= a - b <= i64::MAX ==> spec_int_arith(op, a, b) == Ok::<i64, IntFault>((a - b) as i64),
        op == BinOp::Mul && i64::MIN <= a * b <= i64::MAX ==> spec_int_arith(op, a, b) == Ok::<i64, IntFault>((a * b) as i64),
        op == BinOp::Div && b != 0 && i64::MIN <= tdiv(a as int, b as int) <= i64::MAX ==> spec_int_arith(op, a, b)
            == Ok::<i64, IntFault>(tdiv(a as int, b as int) as i64),
        op == BinOp::Rem && b != 0 ==> spec_int_arith(op, a, b) == Ok::<i64, IntFault>((a - b * tdiv(a as int, b as int)) as i64),
{
}

/// Integer arithmetic (`+ - * / %`), as `spec_int_arith` states.
pub fn int_arith(op: BinOp, a: i64, b: i64) -> (r: Result<i64, IntFault>)
    requires
        op == BinOp::Add || op == BinOp::Sub || op == BinOp::Mul || op == BinOp::Div || op
            == BinOp::Rem,
    ensures
        r == spec_int_arith(op, a, b),
{
    if (op == BinOp::Div || op == BinOp::Rem) && b == 0 {
        return Err(IntFault::DivByZero);
    }
    match op {
        BinOp::Add => {
            return Ok(a.wrapping_add(b));
        },
        BinOp::Sub => {
            return Ok(a.wrapping_sub(b));
        },
        BinOp::Mul => {
            return Ok(a.wrapping_mul(b));
        },
        _ => {},
    }
    let x: i128 = a as i128;
    let y: i128 = b as i128;
    let ax: i128 = if x < 0 {
        -x
    } else {
        x
    };
    let ay: i128 = if y < 0 {
        -y
    } else {
        y
    };
    let q0: i128 = ax / ay;
    let r0: i128 = ax % ay;
    assert(0 <= q0 <= ax && ax == ay * q0 + r0 && 0 <= r0 < ay) by (nonlinear_arith)
        requires
            ax >= 0,
            ay >= 1,
            q0 == ax / ay,
            r0 == ax % ay,
    ;
    let q: i128 = if (x < 0) != (y < 0) {
        -q0
    } else {
        q0
    };
    assert(q == tdiv(a as int, b as int));
    if op == BinOp::Div {
        if q < -9223372036854775808i128 || q > 9223372036854775807i128 {
            return Err(IntFault::Overflow);
        }
        return Ok(q as i64);
    }
    let v: i128 = if x < 0 {
        -r0
    } else {
        r0
    };
    assert(v == x - y * q) by (nonlinear_arith)
        requires
            x < 0 ==> ax == -x,
            x >= 0 ==> ax == x,
            y < 0 ==> ay == -y,
            y >= 0 ==> ay == y,
            (x < 0) != (y < 0) ==> q == -q0,
            (x < 0) == (y < 0) ==> q == q0,
            ax == ay * q0 + r0,
            x < 0 ==> v == -r0,
            x >= 0 ==> v == r0,
    ;
    Ok(v as i64)
}

/// What the checked operations of `Decimal` give for an arithmetic operator
/// (`None` on overflow or a zero divisor; the type checker rejects `%`).
pub open spec fn spec_dec_arith(op: BinOp, a: Dec, b: Dec) -> Option<Dec> {
    match op {
        BinOp::Add => decimal_add(a, b),
        BinOp::Sub => decimal_sub(a, b),
        BinOp::Mul => decimal_mul(a, b),
        BinOp::Div => decimal_div(a, b),
        _ => None,
    }
}

/// Decimal arithmetic, checked.
pub fn dec_arith(op: BinOp, a: Dec, b: Dec) -> (r: Option<Dec>)
    requires
        a.wf(),
        b.wf(),
    ensures
        r == spec_dec_arith(op, a, b),
        r matches Some(d) ==> d.wf(),
        op == BinOp::Div && dec_zero(b) ==> r is None,
{
    match op {
        BinOp::Add => dec_checked_add(a, b),
        BinOp::Sub => dec_checked_sub(a, b),
        BinOp::Mul => dec_checked_mul(a, b),
        BinOp::Div => dec_checked_div(a, b),
        _ => None,
    }
}

/// The order of two values of one scalar kind: -1, 0 or 1.
pub open spec fn spec_compare(l: Value, r: Value) -> Option<i8> {
    match (l, r) {
        (Value::Int(a), Value::Int(b)) => Some(
            if a < b {
                -1i8
            } else if a == b {
                0i8
            } else {
                1i8
            },
        ),
        (Value::Decimal(a), Value::Decimal(b)) => if a.wf() && b.wf() {
            Some(
                if crate::decimal::dec_lt(a, b) {
                    -1i8
                } else if crate::decimal::dec_same_value(a, b) {
                    0i8
                } else {
                    1i8
                },
            )
        } else {
            None
        },
        (Value::Text(a), Value::Text(b)) => Some(
            if crate::text::text_lt(a@, b@) {
                -1i8
            } else if a@ == b@ {
                0i8
            } else {
                1i8
            },
        ),
        (Value::Char(a), Value::Char(b)) => Some(
            if (a as u32) < (b as u32) {
                -1i8
            } else if a == b {
                0i8
            } else {
                1i8
            },
        ),
        _ => None,
    }
}

/// Compares two values of one ordered scalar kind.
pub fn compare(l: &Value, r: &Value) -> (c: Option<i8>)
    ensures
        c == spec_compare(*l, *r),
{
    match (l, r) {
        (Value::Int(a), Value::Int(b)) => Some(
            if *a < *b {
                -1i8
            } else if *a == *b {
                0i8
            } else {
                1i8
            },
        ),
        (Value::Decimal(a), Value::Decimal(b)) => {
            if a.is_wf() && b.is_wf() {
                Some(
                    if decimal_less(*a, *b) {
                        -1i8
                    } else if decimal_equal(*a, *b) {
                        0i8
                    } else {
                        1i8
                    },
                )
            } else {
                None
            }
        },
        (Value::Text(a), Value::Text(b)) => Some(
            if text_less(a.as_str(), b.as_str()) {
                -1i8
            } else if str_eq(a.as_str(), b.as_str()) {
                0i8
            } else {
                1i8
            },
        ),
        (Value::Char(a), Value::Char(b)) => Some(
            if (*a as u32) < (*b as u32) {
                -1i8
            } else if *a == *b {
                0i8
            } else {
                1i8
            },
        ),
        _ => None,
    }
}

/// The truth of an order comparison given the order of its operands.
pub open spec fn spec_order_holds(op: BinOp, c: i8) -> bool {
    match op {
        BinOp::Lt => c < 0,
        BinOp::Le => c <= 0,
        BinOp::Gt => c > 0,
        _ => c >= 0,
    }
}

/// A program's failure, or the console running out of known input.
type EvalResult = Result<Value, RuntimeError>;

/// The message of an error that the checks rule out.
pub open spec fn broken_text() -> Seq<char> {
    "検査済みのはずの前提が成り立ちません"@
}

/// The message of an error that the checks rule out.
fn broken(m: usize, span: Span) -> (e: RuntimeError)
    ensures
        e.message@ == broken_text(),
        e.file == m,
        e.span == Some(span),
        e.trace@.len() == 0,
{
    RuntimeError::new(String::from_str("検査済みのはずの前提が成り立ちません"), m, span)
}

/// The value bound to `name` in a scope.
fn scope_get(scope: &Vec<(String, Value)>, name: &str) -> (r: Option<Value>)
    ensures
        r is None <==> lookup(scope@, name@) is None,
        r matches Some(v) ==> lookup(scope@, name@) matches Some(x) && crate::value::same_value(x, v),
{
    match find(scope, name) {
        Some(i) => Some(scope[i].1.dup()),
        None => None,
    }
}

/// Binds `name` in a scope, replacing an earlier binding of it.
fn scope_set(scope: &mut Vec<(String, Value)>, name: &String, v: Value)
    ensures
        lookup(final(scope)@, name@) == Some(v),
        forall|k: Seq<char>| k != name@ ==> #[trigger] lookup(final(scope)@, k) == lookup(old(scope)@, k),
{
    match find(scope, name.as_str()) {
        Some(i) => {
            let ghost before = scope@;
            let entry = (name.clone(), v);
            scope.set(i, entry);
            proof {
                assert(crate::types::first_match(scope@, name@, i as int));
                crate::types::lemma_lookup_found(scope@, name@, i as int);
                assert forall|k: Seq<char>| k != name@ implies #[trigger] lookup(scope@, k) == lookup(before, k) by {
                    if exists|j: int| crate::types::first_match(before, k, j) {
                        let j = choose|j: int| crate::types::first_match(before, k, j);
                        assert(j != i);
                        assert forall|l: int| 0 <= l < j implies (#[trigger] scope@[l]).0@ != k by {
                            assert(before[l].0@ != k);
                        }
                        assert(crate::types::first_match(scope@, k, j));
                        crate::types::lemma_lookup_found(before, k, j);
                        crate::types::lemma_lookup_found(scope@, k, j);
                    } else if exists|j: int| crate::types::first_match(scope@, k, j) {
                        let j = choose|j: int| crate::types::first_match(scope@, k, j);
                        assert(j != i);
                        assert forall|l: int| 0 <= l < j implies (#[trigger] before[l]).0@ != k by {
                            assert(scope@[l].0@ != k);
                        }
                        assert(crate::types::first_match(before, k, j));
                    }
                }
            }
        },
        None => {
            let ghost before = scope@;
            let entry = (name.clone(), v);
            proof {
                crate::types::lemma_lookup_push(before, entry, name@);
                assert forall|k: Seq<char>| k != name@ implies #[trigger] lookup(before.push(entry), k) == lookup(before, k) by {
                    crate::types::lemma_lookup_push(before, entry, k);
                }
            }
            scope.push(entry);
        },
    }
}

/// A rule ready to run: its module and body, and the scope holding its parameter.
enum Prepared<'a> {
    /// a transition passes its value on unchanged
    Done(Value),
    Body(usize, &'a Block, Vec<(String, Value)>),
}

/// The declaration of the rule `name` of module `m`, as the environment
/// records it.
pub open spec fn rule_decl(loaded: &Loaded, env: &Env, m: int, name: Seq<char>) -> Option<crate::ast::RuleDecl> {
    if 0 <= m < env.modules@.len() && m < loaded.units@.len() {
        match lookup(env.modules@[m].rules@, name) {
            Some(info) => if info.decl < loaded.units@[m].program.decls@.len() {
                match loaded.units@[m].program.decls@[info.decl as int] {
                    Decl::Rule(r) => Some(r),
                    _ => None,
                }
            } else {
                None
            },
            None => None,
        }
    } else {
        None
    }
}

/// No module in the dependency order has a constant to evaluate.
pub open spec fn no_constants(env: &Env) -> bool {
    forall|q: int| 0 <= q < env.order@.len() && env.order@[q] < env.modules@.len()
        ==> (#[trigger] env.modules@[env.order@[q] as int]).const_order@.len() == 0
}

/// The rule `name` of module `m` is a representation-preserving transition.
pub open spec fn is_transition(loaded: &Loaded, env: &Env, m: int, name: Seq<char>) -> bool {
    rule_decl(loaded, env, m, name) matches Some(r) && r.kind is Transition
}

/// The parameters and body of the rule `name` of module `m`, where it is a
/// rule with a body (not a transition or a declaration).
pub open spec fn rule_body(loaded: &Loaded, env: &Env, m: int, name: Seq<char>) -> Option<(Seq<(String, Span)>, Block)> {
    match rule_decl(loaded, env, m, name) {
        Some(rd) => match rd.kind {
            RuleKind::Normal { body, .. } => Some((rd.params@, body)),
            _ => None,
        },
        None => None,
    }
}

/// The values of the local names, by name.
pub type Locals = spec_fn(Seq<char>) -> Option<Value>;

/// The local values a scope holds: for each name, its first binding.
pub open spec fn scope_env(s: Seq<(String, Value)>) -> Locals {
    |k: Seq<char>| lookup(s, k)
}

/// The local values a rule's body starts with: its parameter bound to `arg`.
pub open spec fn param_env(params: Seq<(String, Span)>, arg: Value) -> Locals {
    |k: Seq<char>| if params.len() > 0 && k == params[0].0@ {
        Some(arg)
    } else {
        None
    }
}

/// The local values `env` with `name` bound to `v`.
pub open spec fn bind_env(env: Locals, name: Seq<char>, v: Value) -> Locals {
    |k: Seq<char>| if k == name {
        Some(v)
    } else {
        env(k)
    }
}

/// Both absent, or the same value.
pub open spec fn same_opt(a: Option<Value>, b: Option<Value>) -> bool {
    match (a, b) {
        (None, None) => true,
        (Some(x), Some(y)) => crate::value::same_value(x, y),
        _ => false,
    }
}

/// Every name has the same value in both, or none in both.
pub open spec fn envs_agree(e1: Locals, e2: Locals) -> bool {
    forall|k: Seq<char>| #[trigger] same_opt(e1(k), e2(k))
}

/// Why an evaluation failed: the message, the module (unit number) it arose
/// in, the span there, and the rules it travelled out of, innermost first.
pub type Fail = (Seq<char>, usize, Span, Seq<Seq<char>>);

/// What an evaluation gives: a value, or a failure.
pub type Outcome = Result<Value, Fail>;

/// A failure in module `m` at `span`, not yet out of any rule.
pub open spec fn fail_at(msg: Seq<char>, m: usize, span: Span) -> Outcome {
    Err((msg, m, span, Seq::<Seq<char>>::empty()))
}

/// Two outcomes are the same: the same value, or the same error.
pub open spec fn results_agree(a: Outcome, b: Outcome) -> bool {
    match (a, b) {
        (Ok(x), Ok(y)) => crate::value::same_value(x, y),
        (Err(x), Err(y)) => x == y,
        _ => false,
    }
}

/// Both without an outcome, or outcomes that are the same.
pub open spec fn outcomes_agree(a: Option<Outcome>, b: Option<Outcome>) -> bool {
    match (a, b) {
        (None, None) => true,
        (Some(x), Some(y)) => results_agree(x, y),
        _ => false,
    }
}

/// The message of a call nested too deep.
pub open spec fn too_deep_text() -> Seq<char> {
    "呼び出しが深すぎます (再帰が停止しない可能性があります)"@
}

/// The outcome `o` of a rule's body, as its caller sees it: an error gets
/// the rule `name` added to its trace.
pub open spec fn leave_rule(o: Option<Outcome>, name: Seq<char>) -> Option<Outcome> {
    match o {
        Some(Err((msg, f, sp, tr))) => Some(Err((msg, f, sp, tr.push("R "@ + name)))),
        other => other,
    }
}

/// What the bindings of block `b` from the `k`-th on, then its result, give
/// with the local values `env`, in module `m`, `depth` calls deep: each
/// binding's value, in order, becomes a local value of its name; the first
/// error ends the block.
pub open spec fn bindings_outcome(b: Block, k: int, env: Locals, loaded: &Loaded, genv: &Env, m: usize, depth: int, consts: Seq<(usize, String, Value)>) -> Option<Outcome>
    decreases MAX_DEPTH - depth, b, b.bindings@.len() - k,
{
    if k < 0 || k >= b.bindings@.len() {
        local_outcome(b.result, env, loaded, genv, m, depth, consts)
    } else {
        proof {
            assert(decreases_to!(b => b.bindings));
            assert(decreases_to!(b.bindings => b.bindings@));
            assert(decreases_to!(b.bindings@ => b.bindings@[k]));
            assert(decreases_to!(b.bindings@[k] => b.bindings@[k].value));
        }
        match local_outcome(b.bindings@[k].value, env, loaded, genv, m, depth, consts) {
            Some(Ok(v)) => bindings_outcome(b, k + 1, bind_env(env, b.bindings@[k].name@, v), loaded, genv, m, depth, consts),
            other => other,
        }
    }
}

/// What block `b` gives with the local values `env`.
pub open spec fn block_outcome(b: Block, env: Locals, loaded: &Loaded, genv: &Env, m: usize, depth: int, consts: Seq<(usize, String, Value)>) -> Option<Outcome> {
    bindings_outcome(b, 0, env, loaded, genv, m, depth, consts)
}

/// What a call at `span`, `depth` calls deep, of the rule `name` of module
/// `m` on the value `arg` gives: a transition passes the value on; a rule with
/// a body fails where the call is nested `MAX_DEPTH` deep, and else gives
/// what its body gives with its parameter bound to `arg`, one call deeper,
/// an error leaving it with the rule added to its trace.
pub open spec fn rule_outcome(loaded: &Loaded, genv: &Env, m: usize, name: Seq<char>, arg: Value, span: Span, depth: int, consts: Seq<(usize, String, Value)>) -> Option<Outcome> {
    if is_transition(loaded, genv, m as int, name) {
        Some(Ok(arg))
    } else {
        match rule_body(loaded, genv, m as int, name) {
            Some((params, body)) => if depth >= MAX_DEPTH {
                Some(fail_at(too_deep_text(), m, span))
            } else {
                leave_rule(block_outcome(body, param_env(params, arg), loaded, genv, m, depth + 1, consts), name)
            },
            None => None,
        }
    }
}

/// Arm `j` is the first arm of a flow-level match that names `name`.
pub open spec fn first_flow_arm(arms: Seq<crate::ast::FlowMatchArm>, name: Seq<char>, j: int) -> bool {
    &&& 0 <= j < arms.len()
    &&& arms[j].ctor@ == name
    &&& forall|i: int| 0 <= i < j ==> (#[trigger] arms[i]).ctor@ != name
}

/// The value the steps of a flow-level match arm start from: the
/// constructor's payload, or `Void` where it has none.
pub open spec fn arm_start(payload: Option<Box<Value>>) -> Value {
    match payload {
        Some(p) => *p,
        None => Value::Void,
    }
}

/// What a step of a flow of module `m` gives on the flow's value `current`,
/// with `out` written to the console so far, `depth` calls deep: a value
/// expression's value; a call of a rule of the module, or of a rule of a
/// module it imports, what `rule_outcome` states; a call of a flow of the
/// module, what its steps give one call deeper (an error there with the flow
/// added to its trace; a call nested `MAX_DEPTH` deep fails); `std.print` / `std.printLine` on a text, the text written (with a
/// line break) and `Void`; a `match` on a value of an algebraic type, what
/// the steps of the first arm named by its constructor give, run from the
/// constructor's payload (from `Void` where it has none). `None` for any
/// other step.
pub open spec fn step_outcome(step: FlowStep, current: Value, out: Seq<char>, loaded: &Loaded, genv: &Env, m: usize, depth: int, consts: Seq<(usize, String, Value)>) -> Option<(Outcome, Seq<char>)>
    decreases MAX_DEPTH - depth, step, 0int,
{
    match step {
        FlowStep::Initial(expr) => match local_outcome(expr, scope_env(Seq::empty()), loaded, genv, m, depth, consts) {
            Some(o) => Some((o, out)),
            None => None,
        },
        FlowStep::Call { path, span } => if m < genv.modules@.len() && path@.len() == 1 && lookup(
            genv.modules@[m as int].rules@,
            path@[0].0@,
        ) is Some {
            match rule_outcome(loaded, genv, m, path@[0].0@, current, span, depth, consts) {
                Some(o) => Some((o, out)),
                None => None,
            }
        } else if m < genv.modules@.len() && path@.len() == 1 && flow_decl_of(loaded, genv, m, path@[0].0@) is Some {
            let f = flow_decl_of(loaded, genv, m, path@[0].0@)->0;
            if depth >= MAX_DEPTH {
                Some((fail_at(too_deep_text(), m, f.name_span), out))
            } else {
                match steps_outcome(f.steps@, 0, current, out, loaded, genv, m, depth + 1, consts) {
                    Some((Err((msg, fl, sp, tr)), o2)) => Some((Err((msg, fl, sp, tr.push("F "@ + f.name@))), o2)),
                    other => other,
                }
            }
        } else if m < genv.modules@.len() && path@.len() == 2 {
            match (lookup(genv.modules@[m as int].aliases@, path@[0].0@), current) {
                (Some(ModuleRef::Std(sm)), Value::Text(t)) => match builtins::spec_lookup(sm, path@[1].0@) {
                    Some(builtins::Builtin::Print) => Some((Ok(Value::Void), out + t@)),
                    Some(builtins::Builtin::PrintLine) => Some((Ok(Value::Void), out + t@ + seq!['\n'])),
                    _ => None,
                },
                (Some(ModuleRef::User(mid)), _) => if mid < genv.modules@.len() && lookup(
                    genv.modules@[mid as int].rules@,
                    path@[1].0@,
                ) is Some {
                    match rule_outcome(loaded, genv, mid, path@[1].0@, current, span, depth, consts) {
                        Some(o) => Some((o, out)),
                        None => None,
                    }
                } else {
                    None
                },
                _ => None,
            }
        } else {
            None
        },
        FlowStep::Match { arms, .. } => match current {
            Value::Adt { type_id, ctor, payload } => match ctor_name_of(genv, type_id, ctor) {
                Some(name) => if exists|j: int| first_flow_arm(arms@, name, j) {
                    let j = choose|j: int| first_flow_arm(arms@, name, j);
                    proof {
                        assert(decreases_to!(arms => arms@));
                        assert(decreases_to!(arms@ => arms@[j]));
                        assert(decreases_to!(arms@[j] => arms@[j].steps));
                        assert(decreases_to!(arms@[j].steps => arms@[j].steps@));
                    }
                    steps_outcome(arms@[j].steps@, 0, arm_start(payload), out, loaded, genv, m, depth, consts)
                } else {
                    None
                },
                None => None,
            },
            _ => None,
        },
    }
}

/// A flow-level `match` hands the constructor's payload to the arm: where the
/// first arm named by the constructor has no steps, the step gives the
/// payload itself (`Void` for a constructor without one), and writes nothing.
pub proof fn law_flow_match_passes_payload(arms: Vec<crate::ast::FlowMatchArm>, span: Span, type_id: TypeId, ctor: usize,
    payload: Option<Box<Value>>, j: int, out: Seq<char>, loaded: &Loaded, genv: &Env, m: usize, depth: int,
    consts: Seq<(usize, String, Value)>)
    requires
        ctor_name_of(genv, type_id, ctor) matches Some(name) && first_flow_arm(arms@, name, j),
        arms@[j].steps@.len() == 0,
    ensures
        step_outcome(FlowStep::Match { arms, span }, Value::Adt { type_id, ctor, payload }, out, loaded, genv, m, depth, consts) == Some((
            Ok::<Value, Fail>(match payload {
                Some(p) => *p,
                None => Value::Void,
            }),
            out,
        )),
{
    let name = ctor_name_of(genv, type_id, ctor)->0;
    assert forall|j2: int| first_flow_arm(arms@, name, j2) implies j2 == j by {
        if j2 < j {
            assert(arms@[j2].ctor@ != name);
        } else if j2 > j {
            assert(arms@[j].ctor@ != name);
        }
    }
}

/// What the steps of a flow from the `k`-th on give, each on the value the
/// one before gave, from `current`, with `out` written so far: the last value
/// and the text written, or the first error and the text written up to it.
pub open spec fn steps_outcome(steps: Seq<FlowStep>, k: int, current: Value, out: Seq<char>, loaded: &Loaded, genv: &Env, m: usize, depth: int, consts: Seq<(usize, String, Value)>) -> Option<(Outcome, Seq<char>)>
    decreases MAX_DEPTH - depth, steps, steps.len() - k,
{
    if k < 0 || k >= steps.len() {
        Some((Ok(current), out))
    } else {
        match step_outcome(steps[k], current, out, loaded, genv, m, depth, consts) {
            Some((Ok(v), out2)) => steps_outcome(steps, k + 1, v, out2, loaded, genv, m, depth, consts),
            other => other,
        }
    }
}

/// What the flow `f` of module `m` gives from `current`: what its steps give,
/// an error leaving it with the flow added to its trace.
pub open spec fn flow_outcome(f: crate::ast::FlowDecl, current: Value, out: Seq<char>, loaded: &Loaded, genv: &Env, m: usize, depth: int, consts: Seq<(usize, String, Value)>) -> Option<(Outcome, Seq<char>)> {
    match steps_outcome(f.steps@, 0, current, out, loaded, genv, m, depth, consts) {
        Some((Err((msg, fl, sp, tr)), o2)) => Some((Err((msg, fl, sp, tr.push("F "@ + f.name@))), o2)),
        other => other,
    }
}

/// A call of a rule with a body nested `MAX_DEPTH` calls deep fails with an
/// error, whatever the rule does: recursion that does not stop ends in that
/// error, not in an exhausted stack.
pub proof fn law_depth_limit(loaded: &Loaded, genv: &Env, m: usize, name: Seq<char>, arg: Value, span: Span, depth: int, consts: Seq<(usize, String, Value)>)
    requires
        rule_body(loaded, genv, m as int, name) is Some,
        depth >= MAX_DEPTH,
    ensures
        rule_outcome(loaded, genv, m, name, arg, span, depth, consts) == Some(fail_at(too_deep_text(), m, span)),
{
}

/// Equal local values agree.
proof fn lemma_envs_agree_eq(e1: Locals, e2: Locals)
    requires
        forall|k: Seq<char>| #[trigger] e1(k) == e2(k),
    ensures
        envs_agree(e1, e2),
{
    assert forall|k: Seq<char>| #[trigger] same_opt(e1(k), e2(k)) by {
        assert(e1(k) == e2(k));
        if let Some(x) = e1(k) {
            crate::value::lemma_same_value_refl(x);
        }
    }
}

/// The same argument gives a rule's parameter agreeing local values.
proof fn lemma_param_agree(params: Seq<(String, Span)>, a: Value, b: Value)
    requires
        crate::value::same_value(a, b),
    ensures
        envs_agree(param_env(params, a), param_env(params, b)),
{
    assert forall|k: Seq<char>| #[trigger] same_opt(param_env(params, a)(k), param_env(params, b)(k)) by {}
}

/// A unary operator gives the same outcome on the same values.
proof fn lemma_unary_agree(op: UnaryOp, a: Value, b: Value, m: usize, span: Span)
    requires
        crate::value::same_value(a, b),
    ensures
        results_agree(unary_outcome(op, a, m, span), unary_outcome(op, b, m, span)),
{
    match unary_outcome(op, a, m, span) {
        Ok(v) => crate::value::lemma_same_value_refl(v),
        _ => {},
    }
}

/// `at` gives the same outcome on the same values.
proof fn lemma_index_agree(l1: Value, l2: Value, i1: Value, i2: Value, m: usize, span: Span)
    requires
        crate::value::same_value(l1, l2),
        crate::value::same_value(i1, i2),
    ensures
        results_agree(index_outcome(l1, i1, m, span), index_outcome(l2, i2, m, span)),
{
    if let (Value::List(xs), Value::Int(i)) = (l1, i1) {
        if 0 <= i < xs@.len() {
            let ys = l2->List_0;
            assert(crate::value::same_value(xs@[i as int], ys@[i as int]));
        }
    }
}

/// An expression gives the same outcome with local values that agree.
proof fn lemma_outcome_agree(e: Expr, e1: Locals, e2: Locals, loaded: &Loaded, genv: &Env, m: usize, depth: int, consts: Seq<(usize, String, Value)>)
    requires
        envs_agree(e1, e2),
    ensures
        outcomes_agree(local_outcome(e, e1, loaded, genv, m, depth, consts), local_outcome(e, e2, loaded, genv, m, depth, consts)),
    decreases MAX_DEPTH - depth, e, 0int,
{
    match e {
        Expr::IntLit(..) | Expr::DecimalLit(..) | Expr::TextLit(..) | Expr::CharLit(..) | Expr::BoolLit(..)
        | Expr::VoidLit(..) => {
            if let Some(Ok(v)) = local_outcome(e, e1, loaded, genv, m, depth, consts) {
                crate::value::lemma_same_value_refl(v);
            }
        },
        Expr::Name { path, .. } => {
            if path@.len() == 1 {
                assert(same_opt(e1(path@[0].0@), e2(path@[0].0@)));
                if exists|i: int| first_const(consts, m, path@[0].0@, i) {
                    crate::value::lemma_same_value_refl(consts[choose|i: int| first_const(consts, m, path@[0].0@, i)].2);
                }
            }
        },
        Expr::Call { path, args, span } => {
            if path@.len() == 1 && args@.len() >= 1 && m < genv.modules@.len() {
                assert(decreases_to!(args => args@));
                assert(decreases_to!(args@ => args@[0]));
                lemma_outcome_agree(args@[0], e1, e2, loaded, genv, m, depth, consts);
                if let (Some(Ok(a)), Some(Ok(b))) = (local_outcome(args@[0], e1, loaded, genv, m, depth, consts), local_outcome(
                    args@[0],
                    e2,
                    loaded,
                    genv,
                    m,
                    depth,
                consts,
                )) {
                    let name = path@[0].0@;
                    if is_transition(loaded, genv, m as int, name) {
                    } else if let Some((params, body)) = rule_body(loaded, genv, m as int, name) {
                        if depth < MAX_DEPTH {
                            lemma_param_agree(params, a, b);
                            lemma_bindings_agree(body, 0, param_env(params, a), param_env(params, b), loaded, genv, m, depth + 1, consts);
                        }
                    }
                }
            }
        },
        Expr::Construct { arg, .. } => {
            if let Some(a) = arg {
                lemma_outcome_agree(*a, e1, e2, loaded, genv, m, depth, consts);
            }
        },
        Expr::From { value, .. } => lemma_outcome_agree(*value, e1, e2, loaded, genv, m, depth, consts),
        Expr::Unary { op, operand, span } => {
            lemma_outcome_agree(*operand, e1, e2, loaded, genv, m, depth, consts);
            if let (Some(Ok(a)), Some(Ok(b))) = (local_outcome(*operand, e1, loaded, genv, m, depth, consts), local_outcome(*operand, e2, loaded, genv, m, depth, consts)) {
                lemma_unary_agree(op, a, b, m, span);
            }
        },
        Expr::Binary { op, left, right, span } => {
            lemma_outcome_agree(*left, e1, e2, loaded, genv, m, depth, consts);
            lemma_outcome_agree(*right, e1, e2, loaded, genv, m, depth, consts);
            if let (Some(Ok(a)), Some(Ok(b))) = (local_outcome(*left, e1, loaded, genv, m, depth, consts), local_outcome(*left, e2, loaded, genv, m, depth, consts)) {
                if op is And || op is Or {
                    if a is Bool {
                        assert(b == a);
                        crate::value::lemma_same_value_refl(a);
                    }
                } else if let (Some(Ok(c)), Some(Ok(d))) = (local_outcome(*right, e1, loaded, genv, m, depth, consts), local_outcome(*right, e2, loaded, genv, m, depth, consts)) {
                    lemma_apply_same(op, a, b, c, d);
                    if let Ok(v) = spec_apply_binary(op, a, c) {
                        crate::value::lemma_same_value_refl(v);
                    }
                }
            }
        },
        Expr::At { list, index, span } => {
            lemma_outcome_agree(*list, e1, e2, loaded, genv, m, depth, consts);
            lemma_outcome_agree(*index, e1, e2, loaded, genv, m, depth, consts);
            if let (Some(Ok(a)), Some(Ok(b))) = (local_outcome(*list, e1, loaded, genv, m, depth, consts), local_outcome(*list, e2, loaded, genv, m, depth, consts)) {
                if let (Some(Ok(c)), Some(Ok(d))) = (local_outcome(*index, e1, loaded, genv, m, depth, consts), local_outcome(*index, e2, loaded, genv, m, depth, consts)) {
                    lemma_index_agree(a, b, c, d, m, span);
                }
            }
        },
        Expr::When { cond, then_block, else_block, .. } => {
            lemma_outcome_agree(*cond, e1, e2, loaded, genv, m, depth, consts);
            lemma_outcome_agree(then_block.result, e1, e2, loaded, genv, m, depth, consts);
            lemma_outcome_agree(else_block.result, e1, e2, loaded, genv, m, depth, consts);
            if let (Some(Ok(a)), Some(Ok(b))) = (local_outcome(*cond, e1, loaded, genv, m, depth, consts), local_outcome(*cond, e2, loaded, genv, m, depth, consts)) {
                if a is Bool {
                    assert(b == a);
                }
            }
        },
        _ => {},
    }
}

/// Binding the same value to a name keeps local values in agreement.
proof fn lemma_bind_agree(e1: Locals, e2: Locals, name: Seq<char>, v1: Value, v2: Value)
    requires
        envs_agree(e1, e2),
        crate::value::same_value(v1, v2),
    ensures
        envs_agree(bind_env(e1, name, v1), bind_env(e2, name, v2)),
{
    assert forall|k: Seq<char>| #[trigger] same_opt(bind_env(e1, name, v1)(k), bind_env(e2, name, v2)(k)) by {
        if k != name {
            assert(same_opt(e1(k), e2(k)));
        }
    }
}

/// Agreement carries over to local values equal to the second.
proof fn lemma_agree_eq_right(e1: Locals, e2: Locals, e3: Locals)
    requires
        envs_agree(e1, e2),
        forall|k: Seq<char>| #[trigger] e2(k) == e3(k),
    ensures
        envs_agree(e1, e3),
{
    assert forall|k: Seq<char>| #[trigger] same_opt(e1(k), e3(k)) by {
        assert(same_opt(e1(k), e2(k)));
        assert(e2(k) == e3(k));
    }
}

/// Bindings give the same outcome with local values that agree.
proof fn lemma_bindings_agree(b: Block, k: int, e1: Locals, e2: Locals, loaded: &Loaded, genv: &Env, m: usize, depth: int, consts: Seq<(usize, String, Value)>)
    requires
        envs_agree(e1, e2),
    ensures
        outcomes_agree(bindings_outcome(b, k, e1, loaded, genv, m, depth, consts), bindings_outcome(b, k, e2, loaded, genv, m, depth, consts)),
    decreases MAX_DEPTH - depth, b, b.bindings@.len() - k,
{
    if k < 0 || k >= b.bindings@.len() {
        lemma_outcome_agree(b.result, e1, e2, loaded, genv, m, depth, consts);
    } else {
        assert(decreases_to!(b => b.bindings));
        assert(decreases_to!(b.bindings => b.bindings@));
        assert(decreases_to!(b.bindings@ => b.bindings@[k]));
        assert(decreases_to!(b.bindings@[k] => b.bindings@[k].value));
        let x = b.bindings@[k];
        lemma_outcome_agree(x.value, e1, e2, loaded, genv, m, depth, consts);
        if let (Some(Ok(a)), Some(Ok(c))) = (local_outcome(x.value, e1, loaded, genv, m, depth, consts), local_outcome(x.value, e2, loaded, genv, m, depth, consts)) {
            lemma_bind_agree(e1, e2, x.name@, a, c);
            lemma_bindings_agree(b, k + 1, bind_env(e1, x.name@, a), bind_env(e2, x.name@, c), loaded, genv, m, depth, consts);
        }
    }
}

/// A rule gives the same outcome on the same argument.
proof fn lemma_rule_agree(loaded: &Loaded, genv: &Env, m: usize, name: Seq<char>, a: Value, b: Value, span: Span, depth: int, consts: Seq<(usize, String, Value)>)
    requires
        crate::value::same_value(a, b),
    ensures
        outcomes_agree(rule_outcome(loaded, genv, m, name, a, span, depth, consts), rule_outcome(loaded, genv, m, name, b, span, depth, consts)),
{
    if !is_transition(loaded, genv, m as int, name) {
        if let Some((params, body)) = rule_body(loaded, genv, m as int, name) {
            if depth < MAX_DEPTH {
                lemma_param_agree(params, a, b);
                lemma_bindings_agree(body, 0, param_env(params, a), param_env(params, b), loaded, genv, m, depth + 1, consts);
            }
        }
    }
}

/// Both without an outcome, or the same outcome with the same text written.
pub open spec fn runs_agree(a: Option<(Outcome, Seq<char>)>, b: Option<(Outcome, Seq<char>)>) -> bool {
    match (a, b) {
        (None, None) => true,
        (Some((o1, t1)), Some((o2, t2))) => results_agree(o1, o2) && t1 == t2,
        _ => false,
    }
}

/// A flow step gives the same outcome and text on the same value.
proof fn lemma_step_agree(step: FlowStep, a: Value, b: Value, out: Seq<char>, loaded: &Loaded, genv: &Env, m: usize, depth: int, consts: Seq<(usize, String, Value)>)
    requires
        crate::value::same_value(a, b),
    ensures
        runs_agree(step_outcome(step, a, out, loaded, genv, m, depth, consts), step_outcome(step, b, out, loaded, genv, m, depth, consts)),
    decreases MAX_DEPTH - depth, step, 0int,
{
    match step {
        FlowStep::Call { path, span } => {
            if m < genv.modules@.len() && path@.len() == 1 && lookup(genv.modules@[m as int].rules@, path@[0].0@) is Some {
                lemma_rule_agree(loaded, genv, m, path@[0].0@, a, b, span, depth, consts);
            } else if m < genv.modules@.len() && path@.len() == 1 && flow_decl_of(loaded, genv, m, path@[0].0@) is Some {
                let f = flow_decl_of(loaded, genv, m, path@[0].0@)->0;
                if depth < MAX_DEPTH {
                    lemma_steps_agree(f.steps@, 0, a, b, out, loaded, genv, m, depth + 1, consts);
                }
            } else if m < genv.modules@.len() && path@.len() == 2 {
                if let Some(ModuleRef::User(mid)) = lookup(genv.modules@[m as int].aliases@, path@[0].0@) {
                    if mid < genv.modules@.len() && lookup(genv.modules@[mid as int].rules@, path@[1].0@) is Some {
                        lemma_rule_agree(loaded, genv, mid, path@[1].0@, a, b, span, depth, consts);
                    }
                }
            }
        },
        FlowStep::Initial(expr) => {
            if let Some(Ok(v)) = local_outcome(expr, scope_env(Seq::empty()), loaded, genv, m, depth, consts) {
                crate::value::lemma_same_value_refl(v);
            }
        },
        FlowStep::Match { arms, .. } => {
            if let (Value::Adt { type_id: t1, ctor: c1, payload: p1 }, Value::Adt { type_id: t2, ctor: c2, payload: p2 }) = (a, b) {
                reveal_with_fuel(crate::value::same_value, 2);
                assert(t1 == t2 && c1 == c2);
                if let Some(name) = ctor_name_of(genv, t1, c1) {
                    if exists|j: int| first_flow_arm(arms@, name, j) {
                        let j = choose|j: int| first_flow_arm(arms@, name, j);
                        assert(crate::value::same_value(arm_start(p1), arm_start(p2)));
                        assert(decreases_to!(arms => arms@));
                        assert(decreases_to!(arms@ => arms@[j]));
                        assert(decreases_to!(arms@[j] => arms@[j].steps));
                        assert(decreases_to!(arms@[j].steps => arms@[j].steps@));
                        lemma_steps_agree(arms@[j].steps@, 0, arm_start(p1), arm_start(p2), out, loaded, genv, m, depth, consts);
                    }
                }
            }
        },
    }
}

/// Flow steps give the same outcome and text on the same value.
proof fn lemma_steps_agree(steps: Seq<FlowStep>, k: int, a: Value, b: Value, out: Seq<char>, loaded: &Loaded, genv: &Env, m: usize, depth: int, consts: Seq<(usize, String, Value)>)
    requires
        crate::value::same_value(a, b),
    ensures
        runs_agree(steps_outcome(steps, k, a, out, loaded, genv, m, depth, consts), steps_outcome(steps, k, b, out, loaded, genv, m, depth, consts)),
    decreases MAX_DEPTH - depth, steps, steps.len() - k,
{
    if 0 <= k < steps.len() {
        lemma_step_agree(steps[k], a, b, out, loaded, genv, m, depth, consts);
        if let (Some((Ok(v1), o1)), Some((Ok(v2), o2))) = (step_outcome(steps[k], a, out, loaded, genv, m, depth, consts), step_outcome(steps[k], b, out, loaded, genv, m, depth, consts)) {
            lemma_steps_agree(steps, k + 1, v1, v2, o1, loaded, genv, m, depth, consts);
        }
    }
}

/// `res` is how a run with the outcome `o` ends: success, or that error.
pub open spec fn run_result_is(res: Result<(), RuntimeError>, o: Outcome) -> bool {
    match o {
        Ok(_) => res is Ok,
        Err((msg, f, sp, tr)) => res matches Err(x) && x.message@ == msg && x.file == f && x.span == Some(sp)
            && x.trace@.len() == tr.len() && forall|i: int| 0 <= i < tr.len() ==> #[trigger] x.trace@[i]@ == tr[i],
    }
}

/// A run whose outcome is the same as `o2` has the outcome `o1`.
proof fn lemma_outcome_transfer(r: Result<Value, RuntimeError>, o1: Outcome, o2: Outcome)
    requires
        results_agree(o1, o2),
        outcome_is(r, o2),
    ensures
        outcome_is(r, o1),
{
    if let (Ok(a), Ok(b)) = (o1, o2) {
        crate::value::lemma_same_value_trans(a, b, r->Ok_0);
    }
}

/// Entry `i` is the first constant of module `m` named `name`.
pub open spec fn first_const(consts: Seq<(usize, String, Value)>, m: usize, name: Seq<char>, i: int) -> bool {
    &&& 0 <= i < consts.len()
    &&& consts[i].0 == m && consts[i].1@ == name
    &&& forall|j: int| 0 <= j < i ==> !((#[trigger] consts[j]).0 == m && consts[j].1@ == name)
}

/// A field of that name at `i`, with none before it, is the first one.
proof fn lemma_field_pos_prefix(fields: Seq<crate::types::FieldDef>, name: Seq<char>, i: int)
    requires
        0 <= i < fields.len(),
        field_pos(fields.take(i), name) is None,
        fields[i].name@ == name,
    ensures
        field_pos(fields, name) == Some(i),
    decreases fields.len(),
{
    if i == fields.len() - 1 {
        assert(fields.drop_last() =~= fields.take(i));
    } else {
        assert(fields.drop_last().take(i) =~= fields.take(i));
        lemma_field_pos_prefix(fields.drop_last(), name, i);
    }
}

/// The name of constructor `ctor` of the ADT `type_id`.
pub open spec fn ctor_name_of(env: &Env, type_id: TypeId, ctor: usize) -> Option<Seq<char>> {
    if type_id < env.types@.len() {
        match env.types@[type_id as int].kind {
            TypeDefKind::Adt(ctors) => if ctor < ctors@.len() {
                Some(ctors@[ctor as int].name@)
            } else {
                None
            },
            _ => None,
        }
    } else {
        None
    }
}

/// The position of the first field named `name`.
pub open spec fn field_pos(fields: Seq<crate::types::FieldDef>, name: Seq<char>) -> Option<int>
    decreases fields.len(),
{
    if fields.len() == 0 {
        None
    } else {
        match field_pos(fields.drop_last(), name) {
            Some(i) => Some(i),
            None => if fields.last().name@ == name {
                Some(fields.len() - 1)
            } else {
                None
            },
        }
    }
}

/// The position of field `name` in the record type `type_id`.
pub open spec fn record_field_pos(env: &Env, type_id: TypeId, name: Seq<char>) -> Option<int> {
    if type_id < env.types@.len() {
        match env.types@[type_id as int].kind {
            TypeDefKind::Record(fields) => field_pos(fields@, name),
            _ => None,
        }
    } else {
        None
    }
}

/// The field `name` of a record value.
pub open spec fn field_value(env: &Env, v: Value, name: Seq<char>) -> Option<Value> {
    match v {
        Value::Record(rec) => match record_field_pos(env, rec.type_id, name) {
            Some(i) => if i < rec.fields@.len() {
                Some(rec.fields@[i])
            } else {
                None
            },
            None => None,
        },
        _ => None,
    }
}

/// The constructor a (possibly qualified) name denotes in module `m`.
pub open spec fn ctor_of(env: &Env, m: usize, qualifier: Option<String>, name: Seq<char>) -> Option<(TypeId, usize)> {
    if m >= env.modules@.len() {
        None
    } else {
        match qualifier {
            None => lookup(env.modules@[m as int].ctors@, name),
            Some(q) => match lookup(env.modules@[m as int].aliases@, q@) {
                Some(ModuleRef::User(mid)) => if mid < env.modules@.len() {
                    lookup(env.modules@[mid as int].ctors@, name)
                } else {
                    None
                },
                _ => None,
            },
        }
    }
}

/// The type a (possibly qualified) type name denotes in module `m`.
pub open spec fn type_of_name(env: &Env, m: usize, qualifier: Option<String>, name: Seq<char>) -> Option<TypeId> {
    if m >= env.modules@.len() {
        None
    } else {
        match qualifier {
            None => lookup(env.modules@[m as int].type_names@, name),
            Some(q) => match lookup(env.modules@[m as int].aliases@, q@) {
                Some(ModuleRef::Std(_)) => lookup(env.std_types@, name),
                Some(ModuleRef::User(mid)) => if mid < env.modules@.len() {
                    lookup(env.modules@[mid as int].type_names@, name)
                } else {
                    None
                },
                None => None,
            },
        }
    }
}

/// The declaration of the flow `name` of module `m`.
pub open spec fn flow_decl_of(loaded: &Loaded, env: &Env, m: usize, name: Seq<char>) -> Option<crate::ast::FlowDecl> {
    if m < env.modules@.len() && m < loaded.units@.len() {
        match lookup(env.modules@[m as int].flows@, name) {
            Some(info) => if info.decl < loaded.units@[m as int].program.decls@.len() {
                match loaded.units@[m as int].program.decls@[info.decl as int] {
                    Decl::Flow(f) => Some(f),
                    _ => None,
                }
            } else {
                None
            },
            None => None,
        }
    } else {
        None
    }
}

struct Interp<'e> {
    loaded: &'e Loaded,
    env: &'e Env,
    /// the values of the constants evaluated so far: (module, name, value)
    consts: Vec<(usize, String, Value)>,
    io: Io,
}

impl<'e> Interp<'e> {
    /// The value of the constant `name` of module `m`.
    fn const_value(&self, m: usize, name: &str) -> (r: Option<Value>)
        ensures
            r is None <==> forall|i: int| 0 <= i < self.consts@.len() ==> !((#[trigger] self.consts@[i]).0 == m
                && self.consts@[i].1@ == name@),
            r matches Some(v) ==> exists|i: int| first_const(self.consts@, m, name@, i)
                && crate::value::same_value(self.consts@[i].2, v),
    {
        let mut i: usize = 0;
        while i < self.consts.len()
            invariant
                i <= self.consts@.len(),
                forall|j: int| 0 <= j < i ==> !((#[trigger] self.consts@[j]).0 == m && self.consts@[j].1@ == name@),
            decreases self.consts@.len() - i,
        {
            if self.consts[i].0 == m && str_eq(self.consts[i].1.as_str(), name) {
                let v = self.consts[i].2.dup();
                proof {
                    assert(first_const(self.consts@, m, name@, i as int));
                }
                return Some(v);
            }
            i = i + 1;
        }
        None
    }

    /// The rule `name` of module `m`, with its argument bound to its parameter.
    fn prepare_rule(&self, m: usize, name: &str, arg: Value, span: Span) -> (r: Result<Prepared<'e>, RuntimeError>)
        ensures
            r matches Ok(Prepared::Body(m2, _, _)) ==> m2 < self.loaded.units@.len(),
            is_transition(self.loaded, self.env, m as int, name@) ==> r == Ok::<Prepared<'e>, RuntimeError>(Prepared::Done(arg)),
            rule_decl(self.loaded, self.env, m as int, name@) is None ==> r is Err,
            rule_body(self.loaded, self.env, m as int, name@) matches Some((params, body)) ==> (r matches Ok(
                Prepared::Body(m2, b, sc)) && m2 == m && *b == body && forall|k: Seq<char>| #[trigger] lookup(sc@, k)
                == param_env(params, arg)(k)),
    {
        if m >= self.env.modules.len() || m >= self.loaded.units.len() {
            return Err(broken(m, span));
        }
        let env: &'e Env = self.env;
        let loaded: &'e Loaded = self.loaded;
        let info = match env.modules[m].rule(name) {
            Some(i) => i,
            None => {
                return Err(broken(m, span));
            },
        };
        let decls = &loaded.units[m].program.decls;
        if info.decl >= decls.len() {
            return Err(broken(m, span));
        }
        match &decls[info.decl] {
            Decl::Rule(r) => match &r.kind {
                // a representation-preserving transition: the value passes unchanged
                RuleKind::Transition { .. } => Ok(Prepared::Done(arg)),
                RuleKind::Normal { body, .. } => {
                    let ghost a0 = arg;
                    let mut scope: Vec<(String, Value)> = Vec::new();
                    proof {
                        assert forall|k: Seq<char>| #[trigger] lookup(scope@, k) is None by {
                            assert(!exists|i: int| crate::types::first_match(scope@, k, i));
                        }
                    }
                    if r.params.len() > 0 {
                        let entry = (r.params[0].0.clone(), arg);
                        proof {
                            assert forall|k: Seq<char>| #[trigger] lookup(scope@.push(entry), k) == param_env(r.params@, a0)(k) by {
                                crate::types::lemma_lookup_push(scope@, entry, k);
                            }
                        }
                        scope.push(entry);
                    }
                    Ok(Prepared::Body(m, body, scope))
                },
                RuleKind::External { .. } => Err(broken(m, span)),
            },
            _ => Err(broken(m, span)),
        }
    }

    /// The name of constructor `ctor` of the ADT `type_id`.
    fn ctor_name(&self, type_id: TypeId, ctor: usize) -> (r: Option<String>)
        ensures
            r is None <==> ctor_name_of(self.env, type_id, ctor) is None,
            r matches Some(s) ==> ctor_name_of(self.env, type_id, ctor) == Some(s@),
    {
        match self.env.get_type(type_id) {
            Some(def) => match &def.kind {
                TypeDefKind::Adt(ctors) => if ctor < ctors.len() {
                    Some(ctors[ctor].name.clone())
                } else {
                    None
                },
                _ => None,
            },
            None => None,
        }
    }

    /// The position of field `name` in the record type `type_id`.
    #[verifier::loop_isolation(false)]
    fn field_index(&self, type_id: TypeId, name: &str) -> (r: Option<usize>)
        ensures
            r is None <==> record_field_pos(self.env, type_id, name@) is None,
            r matches Some(i) ==> record_field_pos(self.env, type_id, name@) == Some(i as int),
    {
        match self.env.get_type(type_id) {
            Some(def) => match &def.kind {
                TypeDefKind::Record(fields) => {
                    let mut i: usize = 0;
                    proof {
                        assert(fields@.take(0) =~= Seq::<crate::types::FieldDef>::empty());
                    }
                    while i < fields.len()
                        invariant
                            i <= fields@.len(),
                            field_pos(fields@.take(i as int), name@) is None,
                        decreases fields@.len() - i,
                    {
                        proof {
                            assert(fields@.take(i + 1).drop_last() =~= fields@.take(i as int));
                        }
                        if str_eq(fields[i].name.as_str(), name) {
                            proof {
                                lemma_field_pos_prefix(fields@, name@, i as int);
                            }
                            return Some(i);
                        }
                        i = i + 1;
                    }
                    proof {
                        assert(fields@.take(fields@.len() as int) =~= fields@);
                    }
                    None
                },
                _ => None,
            },
            None => None,
        }
    }

    /// The field `name` of a record value.
    fn field_of(&self, v: Value, name: &str, m: usize, span: Span) -> (r: EvalResult)
        ensures
            match field_value(self.env, v, name@) {
                Some(x) => r matches Ok(w) && crate::value::same_value(x, w),
                None => r matches Err(e) && e.message@ == broken_text(),
            },
    {
        match v {
            Value::Record(rec) => match self.field_index(rec.type_id, name) {
                Some(idx) => if idx < rec.fields.len() {
                    Ok(rec.fields[idx].dup())
                } else {
                    Err(broken(m, span))
                },
                None => Err(broken(m, span)),
            },
            _ => Err(broken(m, span)),
        }
    }

    /// The constructor a (possibly qualified) name denotes, by the rule of the type checker.
    fn ctor_hit(&self, m: usize, qualifier: &Option<String>, name: &String) -> (r: Option<(TypeId, usize)>)
        ensures
            r == ctor_of(self.env, m, *qualifier, name@),
    {
        if m >= self.env.modules.len() {
            return None;
        }
        match qualifier {
            None => self.env.modules[m].ctor(name.as_str()),
            Some(q) => match self.env.modules[m].alias(q.as_str()) {
                Some(ModuleRef::User(mid)) => if mid < self.env.modules.len() {
                    self.env.modules[mid].ctor(name.as_str())
                } else {
                    None
                },
                _ => None,
            },
        }
    }

    /// The type a (possibly qualified) type name denotes.
    fn type_id_of(&self, m: usize, qualifier: &Option<String>, name: &String) -> (r: Option<TypeId>)
        ensures
            r == type_of_name(self.env, m, *qualifier, name@),
    {
        if m >= self.env.modules.len() {
            return None;
        }
        match qualifier {
            None => self.env.modules[m].type_id(name.as_str()),
            Some(q) => match self.env.modules[m].alias(q.as_str()) {
                Some(ModuleRef::Std(_)) => self.env.std_type(name.as_str()),
                Some(ModuleRef::User(mid)) => if mid < self.env.modules.len() {
                    self.env.modules[mid].type_id(name.as_str())
                } else {
                    None
                },
                None => None,
            },
        }
    }

    /// The value of a name: a local value (with field references), a
    /// constant, or a constant of an imported module.
    fn eval_name(&self, m: usize, path: &Vec<(String, Span)>, span: Span, scope: &Vec<(String, Value)>) -> (r: EvalResult)
        ensures
            path@.len() == 0 ==> r is Err,
            path@.len() == 1 ==> match lookup(scope@, path@[0].0@) {
                Some(x) => r matches Ok(v) && crate::value::same_value(x, v),
                None => (r is Ok <==> exists|i: int| first_const(self.consts@, m, path@[0].0@, i)) && (r matches Ok(v)
                    ==> exists|i: int| first_const(self.consts@, m, path@[0].0@, i) && crate::value::same_value(self.consts@[i].2, v)),
            },
    {
        if path.len() == 0 {
            return Err(broken(m, span));
        }
        let first = &path[0].0;
        let (mut cur, from) = match scope_get(scope, first.as_str()) {
            Some(v) => (v, 1usize),
            None => {
                if path.len() == 1 {
                    match self.const_value(m, first.as_str()) {
                        Some(v) => (v, 1usize),
                        None => {
                            return Err(broken(m, span));
                        },
                    }
                } else {
                    // a constant of an imported module, then field references
                    if m >= self.env.modules.len() {
                        return Err(broken(m, span));
                    }
                    match self.env.modules[m].alias(first.as_str()) {
                        Some(ModuleRef::User(mid)) => match self.const_value(mid, path[1].0.as_str()) {
                            Some(v) => (v, 2usize),
                            None => {
                                return Err(broken(m, span));
                            },
                        },
                        _ => {
                            return Err(broken(m, span));
                        },
                    }
                }
            },
        };
        if from >= path.len() {
            return Ok(cur);
        }
        let mut k = from;
        while k < path.len()
            invariant
                path@.len() >= 2,
            decreases path@.len() - k,
        {
            cur = self.field_of(cur, path[k].0.as_str(), m, span)?;
            k = k + 1;
        }
        Ok(cur)
    }
}

/// Why a binary operation on two values has no result.
#[derive(Debug, Clone, Copy, PartialEq, Eq, Structural)]
pub enum OpFault {
    DivByZero,
    IntOverflow,
    DecimalOverflow,
    /// operands the operator does not take (ruled out by the type checker)
    Mismatch,
}

/// The result of a binary operator other than `and` / `or` on two values.
pub open spec fn spec_apply_binary(op: BinOp, l: Value, r: Value) -> Result<Value, OpFault> {
    match op {
        BinOp::Eq => Ok(Value::Bool(crate::value::spec_equals(l, r))),
        BinOp::Ne => Ok(Value::Bool(!crate::value::spec_equals(l, r))),
        BinOp::Lt | BinOp::Le | BinOp::Gt | BinOp::Ge => match spec_compare(l, r) {
            Some(c) => Ok(Value::Bool(spec_order_holds(op, c))),
            None => Err(OpFault::Mismatch),
        },
        BinOp::Add | BinOp::Sub | BinOp::Mul | BinOp::Div | BinOp::Rem => match (l, r) {
            (Value::Int(a), Value::Int(b)) => match spec_int_arith(op, a, b) {
                Ok(v) => Ok(Value::Int(v)),
                Err(IntFault::DivByZero) => Err(OpFault::DivByZero),
                Err(IntFault::Overflow) => Err(OpFault::IntOverflow),
            },
            (Value::Decimal(a), Value::Decimal(b)) => if !(a.wf() && b.wf()) {
                Err(OpFault::Mismatch)
            } else if op == BinOp::Div && dec_zero(b) {
                Err(OpFault::DivByZero)
            } else {
                match spec_dec_arith(op, a, b) {
                    Some(d) => Ok(Value::Decimal(d)),
                    None => Err(OpFault::DecimalOverflow),
                }
            },
            _ => Err(OpFault::Mismatch),
        },
        _ => Err(OpFault::Mismatch),
    }
}

/// Applies a binary operator other than `and` / `or` to two values.
pub fn apply_binary(op: BinOp, l: &Value, r: &Value) -> (res: Result<Value, OpFault>)
    ensures
        res == spec_apply_binary(op, *l, *r),
{
    match op {
        BinOp::Eq => Ok(Value::Bool(l.equals(r))),
        BinOp::Ne => Ok(Value::Bool(!l.equals(r))),
        BinOp::Lt | BinOp::Le | BinOp::Gt | BinOp::Ge => match compare(l, r) {
            Some(c) => Ok(
                Value::Bool(
                    match op {
                        BinOp::Lt => c < 0,
                        BinOp::Le => c <= 0,
                        BinOp::Gt => c > 0,
                        _ => c >= 0,
                    },
                ),
            ),
            None => Err(OpFault::Mismatch),
        },
        BinOp::Add | BinOp::Sub | BinOp::Mul | BinOp::Div | BinOp::Rem => match (l, r) {
            (Value::Int(a), Value::Int(b)) => match int_arith(op, *a, *b) {
                Ok(v) => Ok(Value::Int(v)),
                Err(IntFault::DivByZero) => Err(OpFault::DivByZero),
                Err(IntFault::Overflow) => Err(OpFault::IntOverflow),
            },
            (Value::Decimal(a), Value::Decimal(b)) => {
                if !(a.is_wf() && b.is_wf()) {
                    Err(OpFault::Mismatch)
                } else if op == BinOp::Div && dec_is_zero(*b) {
                    Err(OpFault::DivByZero)
                } else {
                    match dec_arith(op, *a, *b) {
                        Some(d) => Ok(Value::Decimal(d)),
                        None => Err(OpFault::DecimalOverflow),
                    }
                }
            },
            _ => Err(OpFault::Mismatch),
        },
        _ => Err(OpFault::Mismatch),
    }
}

/// `x` is the error of a broken assumption at `span` of module `m`.
pub open spec fn is_broken_at(x: RuntimeError, m: usize, span: Span) -> bool {
    x.message@ == broken_text() && x.file == m && x.span == Some(span) && x.trace@.len() == 0
}

/// The value of a literal expression other than a text literal.
pub open spec fn lit_value(e: Expr) -> Option<Value> {
    match e {
        Expr::IntLit(n, _) => Some(Value::Int(n)),
        Expr::DecimalLit(x, _) => Some(Value::Decimal(x)),
        Expr::CharLit(c, _) => Some(Value::Char(c)),
        Expr::BoolLit(b, _) => Some(Value::Bool(b)),
        Expr::VoidLit(_) => Some(Value::Void),
        _ => None,
    }
}

/// The message of an index outside a list of `n` elements.
pub open spec fn index_range_text(i: i64, n: nat) -> Seq<char> {
    "添字 "@ + crate::text_fmt::int_text(i as int) + " は範囲外です (要素数 "@ + crate::text_fmt::digits(n) + ")"@
}

/// What a unary operator at `span` of module `m` gives on the value `v`.
pub open spec fn unary_outcome(op: UnaryOp, v: Value, m: usize, span: Span) -> Outcome {
    match (op, v) {
        (UnaryOp::Not, Value::Bool(b)) => Ok(Value::Bool(!b)),
        (UnaryOp::Neg, Value::Int(n)) => Ok(Value::Int(0i64.wrapping_sub(n))),
        (UnaryOp::Neg, Value::Decimal(d)) => Ok(Value::Decimal(crate::decimal::Dec { negative: !d.negative, ..d })),
        _ => fail_at(broken_text(), m, span),
    }
}

/// What `list at index` at `span` of module `m` gives: the element at
/// `index`, counted from 0, or the error of an index out of range.
pub open spec fn index_outcome(list: Value, index: Value, m: usize, span: Span) -> Outcome {
    match (list, index) {
        (Value::List(xs), Value::Int(i)) => if i < 0 || i >= xs@.len() {
            fail_at(index_range_text(i, xs@.len()), m, span)
        } else {
            Ok(xs@[i as int])
        },
        _ => fail_at(broken_text(), m, span),
    }
}

/// What the expression `e` of module `m` gives with the local values `env`,
/// `depth` calls deep, where it uses only literals, local names, `from`,
/// unary and binary operators, `at`, `when` whose branches bind nothing,
/// constructions (a constructor's value; a type's construction is its
/// argument's value) and calls of the module's rules: its value, or the first
/// error. `None` for any
/// other expression. `and` / `or` look at their right operand only where the
/// left one does not decide.
pub open spec fn local_outcome(e: Expr, env: Locals, loaded: &Loaded, genv: &Env, m: usize, depth: int, consts: Seq<(usize, String, Value)>) -> Option<Outcome>
    decreases MAX_DEPTH - depth, e, 0int,
{
    match e {
        Expr::IntLit(n, _) => Some(Ok(Value::Int(n))),
        Expr::DecimalLit(x, _) => Some(Ok(Value::Decimal(x))),
        Expr::TextLit(t, _) => Some(Ok(Value::Text(t))),
        Expr::CharLit(c, _) => Some(Ok(Value::Char(c))),
        Expr::BoolLit(b, _) => Some(Ok(Value::Bool(b))),
        Expr::VoidLit(_) => Some(Ok(Value::Void)),
        Expr::Name { path, .. } => if path@.len() == 1 {
            match env(path@[0].0@) {
                Some(x) => Some(Ok(x)),
                None => if exists|i: int| first_const(consts, m, path@[0].0@, i) {
                    Some(Ok(consts[choose|i: int| first_const(consts, m, path@[0].0@, i)].2))
                } else {
                    None
                },
            }
        } else {
            None
        },
        Expr::Call { path, args, span } => if path@.len() == 1 && args@.len() >= 1 && m < genv.modules@.len() {
            proof {
                assert(decreases_to!(args => args@));
                assert(decreases_to!(args@ => args@[0]));
            }
            match local_outcome(args@[0], env, loaded, genv, m, depth, consts) {
                Some(Ok(v)) => {
                    let name = path@[0].0@;
                    if is_transition(loaded, genv, m as int, name) {
                        Some(Ok(v))
                    } else {
                        match rule_body(loaded, genv, m as int, name) {
                            Some((params, body)) => if depth >= MAX_DEPTH {
                                Some(fail_at(too_deep_text(), m, span))
                            } else {
                                leave_rule(bindings_outcome(body, 0, param_env(params, v), loaded, genv, m, depth + 1, consts), name)
                            },
                            None => None,
                        }
                    }
                },
                other => other,
            }
        } else {
            None
        },
        Expr::Construct { qualifier, name, arg, span, .. } => match ctor_of(genv, m, qualifier, name@) {
            Some((tid, c)) => match arg {
                None => Some(Ok(Value::Adt { type_id: tid, ctor: c, payload: None })),
                Some(a) => match local_outcome(*a, env, loaded, genv, m, depth, consts) {
                    Some(Ok(v)) => Some(Ok(Value::Adt { type_id: tid, ctor: c, payload: Some(Box::new(v)) })),
                    other => other,
                },
            },
            None => match arg {
                Some(a) => local_outcome(*a, env, loaded, genv, m, depth, consts),
                None => Some(fail_at(broken_text(), m, span)),
            },
        },
        Expr::From { value, .. } => local_outcome(*value, env, loaded, genv, m, depth, consts),
        Expr::Unary { op, operand, span } => match local_outcome(*operand, env, loaded, genv, m, depth, consts) {
            Some(Ok(v)) => Some(unary_outcome(op, v, m, span)),
            other => other,
        },
        Expr::Binary { op, left, right, span } => match local_outcome(*left, env, loaded, genv, m, depth, consts) {
            Some(Ok(lv)) => if op is And || op is Or {
                match lv {
                    Value::Bool(b) => if (op is And && !b) || (op is Or && b) {
                        Some(Ok(Value::Bool(b)))
                    } else {
                        local_outcome(*right, env, loaded, genv, m, depth, consts)
                    },
                    _ => Some(fail_at(broken_text(), m, span)),
                }
            } else {
                match local_outcome(*right, env, loaded, genv, m, depth, consts) {
                    Some(Ok(rv)) => Some(
                        match spec_apply_binary(op, lv, rv) {
                            Ok(v) => Ok(v),
                            Err(f) => fail_at(fault_text(f), m, span),
                        },
                    ),
                    other => other,
                }
            },
            other => other,
        },
        Expr::At { list, index, span } => match local_outcome(*list, env, loaded, genv, m, depth, consts) {
            Some(Ok(lv)) => match local_outcome(*index, env, loaded, genv, m, depth, consts) {
                Some(Ok(iv)) => Some(index_outcome(lv, iv, m, span)),
                other => other,
            },
            other => other,
        },
        Expr::When { cond, then_block, else_block, span } => match local_outcome(*cond, env, loaded, genv, m, depth, consts) {
            Some(Ok(Value::Bool(c))) => if c {
                if then_block.bindings@.len() == 0 {
                    local_outcome(then_block.result, env, loaded, genv, m, depth, consts)
                } else {
                    None
                }
            } else {
                if else_block.bindings@.len() == 0 {
                    local_outcome(else_block.result, env, loaded, genv, m, depth, consts)
                } else {
                    None
                }
            },
            Some(Ok(_)) => Some(fail_at(broken_text(), m, span)),
            other => other,
        },
        _ => None,
    }
}

/// Arm `j` is the first arm of a `match` that names `name`.
pub open spec fn first_match_arm(arms: Seq<crate::ast::MatchArm>, name: Seq<char>, j: int) -> bool {
    &&& 0 <= j < arms.len()
    &&& arms[j].ctor@ == name
    &&& forall|i: int| 0 <= i < j ==> (#[trigger] arms[i]).ctor@ != name
}

/// The local values an arm's body sees: those of the `match`, with the
/// arm's binding, where it has one, bound to the constructor's payload.
pub open spec fn arm_env(env: Locals, binding: Option<(String, Span)>, payload: Option<Box<Value>>) -> Locals {
    match (binding, payload) {
        (Some((b, _)), Some(p)) => bind_env(env, b@, *p),
        _ => env,
    }
}

/// What a `match` in a rule body gives with the local values `env`: where
/// the scrutinee's value is of an algebraic type, what the body of the first
/// arm named by its constructor gives, the arm's binding bound to the
/// payload; an error of the scrutinee, that error.
pub open spec fn match_outcome(e: Expr, env: Locals, loaded: &Loaded, genv: &Env, m: usize, depth: int, consts: Seq<(usize, String, Value)>) -> Option<Outcome> {
    match e {
        Expr::Match { scrutinee, arms, .. } => match local_outcome(*scrutinee, env, loaded, genv, m, depth, consts) {
            Some(Ok(Value::Adt { type_id, ctor, payload })) => match ctor_name_of(genv, type_id, ctor) {
                Some(name) => if exists|j: int| first_match_arm(arms@, name, j) {
                    let j = choose|j: int| first_match_arm(arms@, name, j);
                    block_outcome(arms@[j].body, arm_env(env, arms@[j].binding, payload), loaded, genv, m, depth, consts)
                } else {
                    None
                },
                None => None,
            },
            Some(Err(x)) => Some(Err(x)),
            _ => None,
        },
        _ => None,
    }
}

/// A `match` binds the constructor's payload to the arm's name: where the
/// first arm named by the scrutinee's constructor binds a name and its body
/// is just that name, the `match` gives the payload.
pub proof fn law_match_binds_payload(e: Expr, env: Locals, loaded: &Loaded, genv: &Env, m: usize, depth: int,
    consts: Seq<(usize, String, Value)>, type_id: TypeId, ctor: usize, p: Value, j: int)
    requires
        e is Match,
        local_outcome(*e->Match_scrutinee, env, loaded, genv, m, depth, consts) == Some(
            Ok::<Value, Fail>(Value::Adt { type_id, ctor, payload: Some(Box::new(p)) }),
        ),
        ctor_name_of(genv, type_id, ctor) matches Some(name) && first_match_arm(e->Match_arms@, name, j),
        e->Match_arms@[j].body.bindings@.len() == 0,
        e->Match_arms@[j].binding matches Some((b, _)) && e->Match_arms@[j].body.result matches Expr::Name { path, .. }
            && path@.len() == 1 && path@[0].0@ == b@,
    ensures
        match_outcome(e, env, loaded, genv, m, depth, consts) == Some(Ok::<Value, Fail>(p)),
{
    let arms = e->Match_arms@;
    let name = ctor_name_of(genv, type_id, ctor)->0;
    assert forall|j2: int| first_match_arm(arms, name, j2) implies j2 == j by {
        if j2 < j {
            assert(arms[j2].ctor@ != name);
        } else if j2 > j {
            assert(arms[j].ctor@ != name);
        }
    }
    let arm = arms[j];
    let b = arm.binding->0;
    let env2 = arm_env(env, arm.binding, Some(Box::new(p)));
    assert(env2 == bind_env(env, b.0@, p));
    let path = arm.body.result->Name_path;
    assert(env2(path@[0].0@) == Some(p));
    assert(local_outcome(arm.body.result, env2, loaded, genv, m, depth, consts) == Some(Ok::<Value, Fail>(p)));
    assert(block_outcome(arm.body, env2, loaded, genv, m, depth, consts) == Some(Ok::<Value, Fail>(p)));
}

/// `r` is the outcome `o`: the same value, or an error with that message,
/// module, span and trace.
pub open spec fn outcome_is(r: Result<Value, RuntimeError>, o: Outcome) -> bool {
    match o {
        Ok(v) => r matches Ok(w) && crate::value::same_value(v, w),
        Err((msg, f, sp, tr)) => r matches Err(x) && x.message@ == msg && x.file == f && x.span == Some(sp)
            && x.trace@.len() == tr.len() && forall|i: int| 0 <= i < tr.len() ==> #[trigger] x.trace@[i]@ == tr[i],
    }
}

/// The qualifier, name, argument and span of a construction (of a list usage
/// type: its first element).
pub open spec fn construct_parts(e: Expr) -> Option<(Option<String>, String, Option<Expr>, Span)> {
    match e {
        Expr::Construct { qualifier, name, arg, span, .. } => Some((qualifier, name, match arg {
            Some(a) => Some(*a),
            None => None,
        }, span)),
        Expr::ListConstruct { qualifier, name, elems, span, .. } => Some((qualifier, name, if elems@.len() > 0 {
            Some(elems@[0])
        } else {
            None
        }, span)),
        _ => None,
    }
}

/// The step calls, by a plain name, a rule of module `m` that only changes
/// the type of its value.
pub open spec fn is_transition_step(loaded: &Loaded, env: &Env, m: usize, step: FlowStep) -> bool {
    step matches FlowStep::Call { path, .. } && path@.len() == 1 && is_transition(loaded, env, m as int, path@[0].0@)
}

/// The value the last of `inits` that sets field position `p` of record type
/// `id` gives, where that value is a literal other than a text.
pub open spec fn init_value(env: &Env, id: TypeId, inits: Seq<RecordFieldInit>, p: int) -> Option<Value>
    decreases inits.len(),
{
    if inits.len() == 0 {
        None
    } else if record_field_pos(env, id, inits.last().name@) == Some(p) {
        lit_value(inits.last().value)
    } else {
        init_value(env, id, inits.drop_last(), p)
    }
}

/// Slot `p` holds a value and `fields` holds a copy of it at `p`.
pub open spec fn slot_copied(slots: Seq<Option<Value>>, fields: Seq<Value>, p: int) -> bool {
    slots[p] matches Some(x) && crate::value::same_value(x, fields[p])
}

/// Every field initialiser names a field of record type `id` (of `w` fields)
/// and gives it a literal other than a text.
pub open spec fn literal_inits(env: &Env, id: TypeId, inits: Seq<RecordFieldInit>, w: nat) -> bool {
    forall|k: int| 0 <= k < inits.len() ==> #[trigger] lit_value(inits[k].value) is Some
        && (record_field_pos(env, id, inits[k].name@) matches Some(p) && 0 <= p < w)
}

/// `r` is the record of type `id` whose fields hold what `inits` set, in
/// declared order; a field that no initialiser sets leaves the construction broken.
pub open spec fn record_outcome(env: &Env, id: TypeId, inits: Seq<RecordFieldInit>, w: nat, m: usize, span: Span,
    r: Result<Value, RuntimeError>) -> bool {
    if forall|p: int| 0 <= p < w ==> #[trigger] init_value(env, id, inits, p) is Some {
        r matches Ok(Value::Record(rv)) && rv.type_id == id && rv.fields@.len() == w
            && forall|p: int| 0 <= p < w ==> (init_value(env, id, inits, p) matches Some(x)
            && crate::value::same_value(x, #[trigger] rv.fields@[p]))
    } else {
        r matches Err(x) && is_broken_at(x, m, span)
    }
}

/// The number of fields of the record type `id`.
pub open spec fn record_width(env: &Env, id: TypeId) -> Option<nat> {
    if id < env.types@.len() {
        match env.types@[id as int].kind {
            TypeDefKind::Record(fields) => Some(fields@.len()),
            _ => None,
        }
    } else {
        None
    }
}

/// The type `id` (if any) is a usage type over a list.
pub open spec fn is_list_usage(env: &Env, id: Option<TypeId>) -> bool {
    id matches Some(i) && i < env.types@.len() && env.types@[i as int].kind matches TypeDefKind::Usage(Type::List(_))
}

/// `r` is what a construction gives that names constructor `hit` (if it names
/// one) with argument `arg`, where the argument is a literal: a constructor
/// value, or else the argument's own value (usage and builtin types are
/// transparent); without an argument a non-constructor construction is broken.
pub open spec fn construct_outcome(hit: Option<(TypeId, usize)>, arg: Option<Expr>, m: usize, span: Span, r: Result<Value, RuntimeError>) -> bool {
    match hit {
        Some((tid, c)) => match arg {
            None => r == Ok::<Value, RuntimeError>(Value::Adt { type_id: tid, ctor: c, payload: None }),
            Some(a) => lit_value(a) matches Some(v) ==> r == Ok::<Value, RuntimeError>(
                Value::Adt { type_id: tid, ctor: c, payload: Some(Box::new(v)) }),
        },
        None => match arg {
            None => r matches Err(x) && is_broken_at(x, m, span),
            Some(a) => lit_value(a) matches Some(v) ==> r == Ok::<Value, RuntimeError>(v),
        },
    }
}

/// `r` is what `op` at `span` of module `m` gives on operands `lv` and `rv`:
/// `and` and `or` look at the right operand only where the left one does not decide.
pub open spec fn binary_outcome(op: BinOp, lv: Value, rv: Value, m: usize, span: Span, r: Result<Value, RuntimeError>) -> bool {
    if op is And || op is Or {
        match lv {
            Value::Bool(b) => if op is And && !b {
                r == Ok::<Value, RuntimeError>(Value::Bool(false))
            } else if op is Or && b {
                r == Ok::<Value, RuntimeError>(Value::Bool(true))
            } else {
                r == Ok::<Value, RuntimeError>(rv)
            },
            _ => r matches Err(x) && is_broken_at(x, m, span),
        }
    } else {
        match spec_apply_binary(op, lv, rv) {
            Ok(v) => r == Ok::<Value, RuntimeError>(v),
            Err(f) => r matches Err(x) && x.message@ == fault_text(f) && x.file == m && x.span == Some(span)
                && x.trace@.len() == 0,
        }
    }
}

/// The message a failed operation is reported with.
pub open spec fn fault_text(f: OpFault) -> Seq<char> {
    match f {
        OpFault::DivByZero => "0 で除算しました"@,
        OpFault::IntOverflow => "Int の範囲を超えました"@,
        OpFault::DecimalOverflow => "Decimal の範囲を超えました"@,
        OpFault::Mismatch => "検査済みのはずの前提が成り立ちません"@,
    }
}

/// An operator reads its operands by what they hold: operands that are the
/// same values give the same result.
proof fn lemma_apply_same(op: BinOp, a: Value, a2: Value, b: Value, b2: Value)
    requires
        crate::value::same_value(a, a2),
        crate::value::same_value(b, b2),
    ensures
        spec_apply_binary(op, a, b) == spec_apply_binary(op, a2, b2),
{
    match (a, b) {
        (Value::Text(_), Value::Text(_)) => {},
        _ => {},
    }
}

/// The message a failed operation is reported with.
fn fault_message(f: OpFault) -> (s: String)
    ensures
        s@ == fault_text(f),
{
    match f {
        OpFault::DivByZero => String::from_str("0 で除算しました"),
        OpFault::IntOverflow => String::from_str("Int の範囲を超えました"),
        OpFault::DecimalOverflow => String::from_str("Decimal の範囲を超えました"),
        OpFault::Mismatch => String::from_str("検査済みのはずの前提が成り立ちません"),
    }
}

/// The call went too deep.
fn too_deep(m: usize, span: Span) -> (e: RuntimeError)
    ensures
        e.message@ == "呼び出しが深すぎます (再帰が停止しない可能性があります)"@,
        e.file == m,
        e.span == Some(span),
        e.trace@.len() == 0,
{
    RuntimeError::new(String::from_str("呼び出しが深すぎます (再帰が停止しない可能性があります)"), m, span)
}

/// Adds a rule or flow to the path an error travelled.
fn traced(mut e: RuntimeError, kind: &str, name: &str) -> (r: RuntimeError)
    ensures
        r.message == e.message,
        r.file == e.file,
        r.span == e.span,
        r.trace@.len() == e.trace@.len() + 1,
        forall|i: int| 0 <= i < e.trace@.len() ==> #[trigger] r.trace@[i] == e.trace@[i],
        r.trace@.last()@ == kind@ + name@,
{
    e.trace.push(cat2(kind, name));
    e
}

impl<'e> Interp<'e> {
    /// Evaluates a block: its bindings into the scope, then its final expression.
    #[verifier::loop_isolation(false)]
    fn eval_block(&mut self, depth: usize, m: usize, block: &Block, scope: &mut Vec<(String, Value)>) -> (r: EvalResult)
        requires
            depth <= MAX_DEPTH,
        ensures
            builtins::io_kept(old(self).io, final(self).io),
            r is Ok ==> final(self).io.starved == old(self).io.starved,
            final(self).env == old(self).env,
            final(self).loaded == old(self).loaded,
            final(self).consts == old(self).consts,
            (forall|i: int| 0 <= i < block.bindings@.len() ==> #[trigger] lit_value(block.bindings@[i].value) is Some)
                ==> (lit_value(block.result) matches Some(v) ==> r == Ok::<Value, RuntimeError>(v)),
            block.bindings@.len() == 0 ==> (local_outcome(block.result, scope_env(old(scope)@), old(self).loaded, old(self).env,
                m, depth as int, old(self).consts@) matches Some(o) ==> final(scope)@ == old(scope)@),
            block_outcome(*block, scope_env(old(scope)@), old(self).loaded, old(self).env, m, depth as int, old(self).consts@) matches Some(o)
                ==> outcome_is(r, o) && final(self).io == old(self).io,
        decreases MAX_DEPTH - depth, block, 6int,
    {
        let ghost ld = self.loaded;
        let ghost ge = self.env;
        let ghost dp = depth as int;
        let ghost target = block_outcome(*block, scope_env(scope@), ld, ge, m, dp, old(self).consts@);
        let ghost mut penv: Locals = scope_env(scope@);
        proof {
            lemma_envs_agree_eq(penv, scope_env(scope@));
        }
        let mut k: usize = 0;
        while k < block.bindings.len()
            invariant
                depth <= MAX_DEPTH,
                k <= block.bindings@.len(),
                k == 0 ==> scope@ == old(scope)@,
                builtins::io_kept(old(self).io, self.io),
                self.io.starved == old(self).io.starved,
                self.env == old(self).env,
                self.loaded == old(self).loaded,
                self.consts == old(self).consts,
                ld == self.loaded,
                ge == self.env,
                target is Some ==> bindings_outcome(*block, k as int, penv, ld, ge, m, dp, old(self).consts@) == target,
                target is Some ==> envs_agree(penv, scope_env(scope@)),
                target is Some ==> self.io == old(self).io,
            decreases block.bindings@.len() - k,
        {
            proof {
                assert(decreases_to!(block.bindings => block.bindings@));
                assert(decreases_to!(block.bindings@ => block.bindings@[k as int]));
            }
            let b = &block.bindings[k];
            let ghost x = block.bindings@[k as int];
            let ghost lit = lit_value(x.value);
            let ghost sb = scope@;
            proof {
                if target is Some {
                    lemma_outcome_agree(x.value, penv, scope_env(sb), ld, ge, m, dp, old(self).consts@);
                }
            }
            let res = self.eval_expr(depth, m, &b.value, scope);
            proof {
                if target is Some {
                    if let (Some(o1), Some(o2)) = (local_outcome(x.value, penv, ld, ge, m, dp, old(self).consts@), local_outcome(x.value, scope_env(sb), ld, ge, m, dp, old(self).consts@)) {
                        lemma_outcome_transfer(res, o1, o2);
                    }
                }
            }
            let v = match res {
                Ok(v) => v,
                Err(x) => {
                    return Err(x);
                },
            };
            assert(lit is Some ==> lit == Some(v));
            let ghost s1 = scope@;
            scope_set(scope, &b.name, v);
            proof {
                if target is Some {
                    let pv = local_outcome(x.value, penv, ld, ge, m, dp, old(self).consts@)->Some_0->Ok_0;
                    lemma_bind_agree(penv, scope_env(s1), x.name@, pv, v);
                    assert forall|q: Seq<char>| #[trigger] bind_env(scope_env(s1), x.name@, v)(q) == scope_env(scope@)(q) by {
                        if q != x.name@ {
                            assert(lookup(scope@, q) == lookup(s1, q));
                        }
                    }
                    lemma_agree_eq_right(bind_env(penv, x.name@, pv), bind_env(scope_env(s1), x.name@, v), scope_env(scope@));
                    penv = bind_env(penv, x.name@, pv);
                }
            }
            k = k + 1;
        }
        let ghost sf = scope@;
        proof {
            if target is Some {
                lemma_outcome_agree(block.result, penv, scope_env(sf), ld, ge, m, dp, old(self).consts@);
            }
        }
        let r = self.eval_expr(depth, m, &block.result, scope);
        proof {
            if target is Some {
                if let (Some(o1), Some(o2)) = (local_outcome(block.result, penv, ld, ge, m, dp, old(self).consts@), local_outcome(block.result, scope_env(sf), ld, ge, m, dp, old(self).consts@)) {
                    lemma_outcome_transfer(r, o1, o2);
                }
            }
        }
        r
    }

    /// Evaluates an expression in module `m`, `depth` calls deep.
    #[verifier::loop_isolation(false)]
    fn eval_expr(&mut self, depth: usize, m: usize, e: &Expr, scope: &mut Vec<(String, Value)>) -> (r: EvalResult)
        requires
            depth <= MAX_DEPTH,
        ensures
            builtins::io_kept(old(self).io, final(self).io),
            r is Ok ==> final(self).io.starved == old(self).io.starved,
            final(self).env == old(self).env,
            final(self).loaded == old(self).loaded,
            final(self).consts == old(self).consts,
            *e matches Expr::IntLit(n, _) ==> r == Ok::<Value, RuntimeError>(Value::Int(n)),
            *e matches Expr::DecimalLit(x, _) ==> r == Ok::<Value, RuntimeError>(Value::Decimal(x)),
            *e matches Expr::TextLit(t, _) ==> r matches Ok(Value::Text(u)) && u@ == t@,
            *e matches Expr::CharLit(c, _) ==> r == Ok::<Value, RuntimeError>(Value::Char(c)),
            *e matches Expr::BoolLit(b, _) ==> r == Ok::<Value, RuntimeError>(Value::Bool(b)),
            e is VoidLit ==> r == Ok::<Value, RuntimeError>(Value::Void),
            local_outcome(*e, scope_env(old(scope)@), old(self).loaded, old(self).env, m, depth as int, old(self).consts@) matches Some(o)
                ==> outcome_is(r, o) && final(scope)@ == old(scope)@ && final(self).io == old(self).io,
            match_outcome(*e, scope_env(old(scope)@), old(self).loaded, old(self).env, m, depth as int, old(self).consts@) matches Some(o)
                ==> outcome_is(r, o),
        decreases MAX_DEPTH - depth, e, 5int,
    {
        match e {
            Expr::IntLit(n, _) => Ok(Value::Int(*n)),
            Expr::DecimalLit(d, _) => Ok(Value::Decimal(*d)),
            Expr::TextLit(t, _) => Ok(Value::Text(t.clone())),
            Expr::CharLit(c, _) => Ok(Value::Char(*c)),
            Expr::BoolLit(b, _) => Ok(Value::Bool(*b)),
            Expr::VoidLit(_) => Ok(Value::Void),
            Expr::Name { path, span } => self.eval_name(m, path, *span, scope),
            Expr::Call { .. } => self.eval_call(depth, m, e, scope),
            Expr::At { list, index, span } => {
                let ghost s0 = scope@;
                let lv = match self.eval_expr(depth, m, &**list, scope) {
                    Ok(v) => v,
                    Err(x) => {
                        return Err(x);
                    },
                };
                let iv = match self.eval_expr(depth, m, &**index, scope) {
                    Ok(v) => v,
                    Err(x) => {
                        return Err(x);
                    },
                };
                match (&lv, &iv) {
                    (Value::List(xs), Value::Int(i)) => {
                        if *i < 0 || *i as u64 >= xs.len() as u64 {
                            let a = i64_text(*i);
                            let n = nat_text(xs.len() as u64);
                            let mut msg = cat4("添字 ", a.as_str(), " は範囲外です (要素数 ", n.as_str());
                            msg.append(")");
                            proof {
                                if let Some(Ok(pl)) = local_outcome(**list, scope_env(s0), old(self).loaded, old(self).env, m, depth as int, old(self).consts@) {
                                    if let Some(Ok(pi)) = local_outcome(**index, scope_env(s0), old(self).loaded, old(self).env, m, depth as int, old(self).consts@) {
                                        assert(pl->List_0@.len() == xs@.len());
                                        assert(pi == iv);
                                    }
                                }
                            }
                            return Err(RuntimeError::new(msg, m, *span));
                        }
                        let d = xs[*i as usize].dup();
                        proof {
                            if let Some(Ok(pl)) = local_outcome(**list, scope_env(s0), old(self).loaded, old(self).env, m, depth as int, old(self).consts@) {
                                if let Some(Ok(pi)) = local_outcome(**index, scope_env(s0), old(self).loaded, old(self).env, m, depth as int, old(self).consts@) {
                                    let pxs = pl->List_0;
                                    assert(pi == iv);
                                    assert(crate::value::same_value(pxs@[*i as int], xs@[*i as int]));
                                    crate::value::lemma_same_value_trans(pxs@[*i as int], xs@[*i as int], d);
                                }
                            }
                        }
                        Ok(d)
                    },
                    _ => Err(broken(m, *span)),
                }
            },
            Expr::Empty { .. } => Ok(Value::List(Vec::new())),
            Expr::Construct { .. } => self.eval_construct(depth, m, e, scope),
            // `A from x` keeps the representation: the value passes unchanged
            Expr::From { value, .. } => self.eval_expr(depth, m, &**value, scope),
            Expr::Record { .. } => self.eval_record(depth, m, e, scope),
            Expr::ListConstruct { .. } => self.eval_list_construct(depth, m, e, scope),
            Expr::Unary { op, operand, span } => {
                let v = match self.eval_expr(depth, m, &**operand, scope) {
                    Ok(v) => v,
                    Err(x) => {
                        return Err(x);
                    },
                };
                match (op, v) {
                    (UnaryOp::Not, Value::Bool(b)) => Ok(Value::Bool(!b)),
                    (UnaryOp::Neg, Value::Int(n)) => Ok(Value::Int(0i64.wrapping_sub(n))),
                    (UnaryOp::Neg, Value::Decimal(d)) => Ok(Value::Decimal(dec_neg(d))),
                    _ => Err(broken(m, *span)),
                }
            },
            Expr::Binary { .. } => self.eval_binary(depth, m, e, scope),
            Expr::When { cond, then_block, else_block, span } => {
                let cv = match self.eval_expr(depth, m, &**cond, scope) {
                    Ok(v) => v,
                    Err(x) => {
                        return Err(x);
                    },
                };
                match cv {
                    Value::Bool(c) => {
                        if c {
                            self.eval_block(depth, m, &**then_block, scope)
                        } else {
                            self.eval_block(depth, m, &**else_block, scope)
                        }
                    },
                    _ => Err(broken(m, *span)),
                }
            },
            Expr::Match { scrutinee, arms, span } => {
                let ghost s0 = scope@;
                let ghost mo = match_outcome(*e, scope_env(s0), self.loaded, self.env, m, depth as int, self.consts@);
                let ghost so = local_outcome(**scrutinee, scope_env(s0), self.loaded, self.env, m, depth as int, self.consts@);
                let v = self.eval_expr(depth, m, &**scrutinee, scope)?;
                let ghost v0 = v;
                let (type_id, ctor, payload) = match v {
                    Value::Adt { type_id, ctor, payload } => (type_id, ctor, payload),
                    _ => {
                        return Err(broken(m, *span));
                    },
                };
                let name = match self.ctor_name(type_id, ctor) {
                    Some(n) => n,
                    None => {
                        return Err(broken(m, *span));
                    },
                };
                let mut k: usize = 0;
                while k < arms.len()
                    invariant
                        depth <= MAX_DEPTH,
                        builtins::io_kept(old(self).io, self.io),
                        self.io.starved == old(self).io.starved,
                        self.env == old(self).env,
                        self.loaded == old(self).loaded,
                        self.consts == old(self).consts,
                        k <= arms@.len(),
                        forall|i: int| 0 <= i < k ==> (#[trigger] arms@[i]).ctor@ != name@,
                    decreases arms@.len() - k,
                {
                    if str_eq(arms[k].ctor.as_str(), name.as_str()) {
                        break;
                    }
                    k = k + 1;
                }
                if k >= arms.len() {
                    return Err(broken(m, *span));
                }
                proof {
                    assert(decreases_to!(arms => arms@));
                    assert(decreases_to!(arms@ => arms@[k as int]));
                }
                let arm = &arms[k];
                let ghost pay = payload;
                let ghost s1 = scope@;
                if let Some((bname, _)) = &arm.binding {
                    if let Some(p) = payload {
                        scope_set(scope, bname, *p);
                    }
                }
                proof {
                    assert(scope_env(scope@) =~= arm_env(scope_env(s1), arm.binding, pay));
                }
                let res = self.eval_block(depth, m, &arm.body, scope);
                proof {
                    if mo is Some && so is Some && so->0 is Ok {
                        let sv = so->0->Ok_0;
                        assert(s1 == s0);
                        assert(first_match_arm(arms@, name@, k as int));
                        assert forall|j2: int| first_match_arm(arms@, name@, j2) implies j2 == k by {
                            if j2 < k {
                                assert(arms@[j2].ctor@ != name@);
                            } else if j2 > k {
                                assert(arms@[k as int].ctor@ != name@);
                            }
                        }
                        reveal_with_fuel(crate::value::same_value, 2);
                        let sp = sv->Adt_payload;
                        lemma_envs_agree_eq(scope_env(s0), scope_env(s0));
                        if arm.binding is Some && sp is Some {
                            let bb = arm.binding->0;
                            lemma_bind_agree(scope_env(s0), scope_env(s0), bb.0@, *sp->0, *pay->0);
                        }
                        assert(envs_agree(arm_env(scope_env(s0), arm.binding, sp), arm_env(scope_env(s0), arm.binding, pay)));
                        lemma_bindings_agree(arm.body, 0, arm_env(scope_env(s0), arm.binding, sp), arm_env(scope_env(s0), arm.binding, pay),
                            self.loaded, self.env, m, depth as int, self.consts@);
                        let o1 = mo->0;
                        let o2 = block_outcome(arm.body, arm_env(scope_env(s0), arm.binding, pay), self.loaded, self.env, m, depth as int, self.consts@)->0;
                        lemma_outcome_transfer(res, o1, o2);
                    }
                }
                res
            },
        }
    }

    /// Evaluates a call: of a rule (one call deeper) or of a std builtin.
    #[verifier::loop_isolation(false)]
    fn eval_call(&mut self, depth: usize, m: usize, e: &Expr, scope: &mut Vec<(String, Value)>) -> (r: EvalResult)
        requires
            depth <= MAX_DEPTH,
        ensures
            builtins::io_kept(old(self).io, final(self).io),
            r is Ok ==> final(self).io.starved == old(self).io.starved,
            final(self).env == old(self).env,
            final(self).loaded == old(self).loaded,
            final(self).consts == old(self).consts,
            !(*e is Call) ==> (r matches Err(x) && is_broken_at(x, m, e.spec_span())),
            e matches Expr::Call { path, args, span } ==> {
                &&& path@.len() == 0 || m >= old(self).env.modules@.len() ==> (r matches Err(x) && is_broken_at(x, m, *span))
                &&& path@.len() == 1 && args@.len() == 0 ==> (r matches Err(x) && is_broken_at(x, m, *span))
                &&& path@.len() == 1 && args@.len() > 0 ==> (rule_decl(old(self).loaded, old(self).env, m as int, path@[0].0@) is None
                    ==> r is Err)
                &&& path@.len() == 1 && args@.len() > 0 && m < old(self).env.modules@.len()
                    && is_transition(old(self).loaded, old(self).env, m as int, path@[0].0@)
                    ==> (lit_value(args@[0]) matches Some(v) ==> r == Ok::<Value, RuntimeError>(v))
                &&& path@.len() >= 2 && m < old(self).env.modules@.len()
                    && lookup(old(self).env.modules@[m as int].aliases@, path@[0].0@) is None
                    ==> (r matches Err(x) && is_broken_at(x, m, *span))
            },
            *e is Call ==> (local_outcome(*e, scope_env(old(scope)@), old(self).loaded, old(self).env, m, depth as int, old(self).consts@)
                matches Some(o) ==> outcome_is(r, o) && final(scope)@ == old(scope)@ && final(self).io == old(self).io),
        decreases MAX_DEPTH - depth, e, 4int,
    {
        let (path, args, span) = match e {
            Expr::Call { path, args, span } => (path, args, *span),
            _ => {
                return Err(broken(m, e.span()));
            },
        };
        if path.len() == 0 || m >= self.env.modules.len() {
            return Err(broken(m, span));
        }
        proof {
            assert(decreases_to!(args => args@));
        }
        if path.len() == 1 {
            if args.len() == 0 {
                return Err(broken(m, span));
            }
            let ghost ld = self.loaded;
            let ghost ge = self.env;
            let ghost dp = depth as int;
            let ghost s_0 = scope@;
            let ghost name = path@[0].0@;
            let argres = self.eval_expr(depth, m, &args[0], scope);
            let arg = match argres {
                Ok(v) => v,
                Err(x) => {
                    return Err(x);
                },
            };
            let ghost pa = local_outcome(args@[0], scope_env(s_0), ld, ge, m, dp, old(self).consts@);
            let ghost av = arg;
            let p = self.prepare_rule(m, path[0].0.as_str(), arg, span)?;
            return match p {
                Prepared::Done(v) => Ok(v),
                Prepared::Body(m2, body, sc0) => {
                    if depth >= MAX_DEPTH {
                        return Err(too_deep(m2, span));
                    }
                    let mut sc = sc0;
                    let ghost sc_0 = sc@;
                    proof {
                        if let (Some(Ok(pv)), Some((params, b))) = (pa, rule_body(ld, ge, m as int, name)) {
                            lemma_param_agree(params, pv, av);
                            assert forall|q: Seq<char>| #[trigger] param_env(params, av)(q) == scope_env(sc_0)(q) by {
                                assert(lookup(sc_0, q) == param_env(params, av)(q));
                            }
                            lemma_agree_eq_right(param_env(params, pv), param_env(params, av), scope_env(sc_0));
                            lemma_bindings_agree(b, 0, param_env(params, pv), scope_env(sc_0), ld, ge, m, dp + 1, old(self).consts@);
                        }
                    }
                    let res = self.eval_block(depth + 1, m2, body, &mut sc);
                    proof {
                        if let (Some(Ok(pv)), Some((params, b))) = (pa, rule_body(ld, ge, m as int, name)) {
                            if let (Some(o1), Some(o2)) = (block_outcome(b, param_env(params, pv), ld, ge, m, dp + 1, old(self).consts@), block_outcome(b, scope_env(sc_0), ld, ge, m, dp + 1, old(self).consts@)) {
                                lemma_outcome_transfer(res, o1, o2);
                            }
                        }
                    }
                    match res {
                        Ok(v) => Ok(v),
                        Err(err) => Err(traced(err, "R ", path[0].0.as_str())),
                    }
                },
            };
        }
        let env: &'e Env = self.env;
        match env.modules[m].alias(path[0].0.as_str()) {
            Some(ModuleRef::Std(module)) => {
                let b = match builtins::lookup(module, path[1].0.as_str()) {
                    Some(b) => b,
                    None => {
                        return Err(broken(m, span));
                    },
                };
                let mut vals: Vec<Value> = Vec::new();
                let mut k: usize = 0;
                while k < args.len()
                    invariant
                        depth <= MAX_DEPTH,
                        builtins::io_kept(old(self).io, self.io),
                        self.io.starved == old(self).io.starved,
                        self.env == old(self).env,
                        self.loaded == old(self).loaded,
                        self.consts == old(self).consts,
                    decreases args@.len() - k,
                {
                    proof {
                        assert(decreases_to!(args@ => args@[k as int]));
                    }
                    let v = self.eval_expr(depth, m, &args[k], scope)?;
                    vals.push(v);
                    k = k + 1;
                }
                match builtins::eval(b, &vals, env, &mut self.io) {
                    Ok(v) => Ok(v),
                    Err(msg) => Err(RuntimeError::new(msg, m, span)),
                }
            },
            Some(ModuleRef::User(mid)) => {
                if args.len() == 0 {
                    return Err(broken(m, span));
                }
                let arg = self.eval_expr(depth, m, &args[0], scope)?;
                let p = self.prepare_rule(mid, path[1].0.as_str(), arg, span)?;
                match p {
                    Prepared::Done(v) => Ok(v),
                    Prepared::Body(m2, body, sc0) => {
                        if depth >= MAX_DEPTH {
                            return Err(too_deep(m2, span));
                        }
                        let mut sc = sc0;
                        match self.eval_block(depth + 1, m2, body, &mut sc) {
                            Ok(v) => Ok(v),
                            Err(err) => Err(traced(err, "R ", path[1].0.as_str())),
                        }
                    },
                }
            },
            None => Err(broken(m, span)),
        }
    }

    /// Evaluates `Ctor [payload]` (an ADT value) or `TypeName value`, which
    /// at run time is the value itself.
    #[verifier::loop_isolation(false)]
    fn eval_construct(&mut self, depth: usize, m: usize, e: &Expr, scope: &mut Vec<(String, Value)>) -> (r: EvalResult)
        requires
            depth <= MAX_DEPTH,
        ensures
            builtins::io_kept(old(self).io, final(self).io),
            r is Ok ==> final(self).io.starved == old(self).io.starved,
            final(self).env == old(self).env,
            final(self).loaded == old(self).loaded,
            final(self).consts == old(self).consts,
            construct_parts(*e) is None ==> (r matches Err(x) && is_broken_at(x, m, e.spec_span())),
            construct_parts(*e) matches Some((q, n, arg, span)) ==> construct_outcome(ctor_of(old(self).env, m, q, n@), arg, m, span, r),
            *e is Construct ==> (local_outcome(*e, scope_env(old(scope)@), old(self).loaded, old(self).env, m, depth as int, old(self).consts@)
                matches Some(o) ==> outcome_is(r, o) && final(scope)@ == old(scope)@ && final(self).io == old(self).io),
        decreases MAX_DEPTH - depth, e, 3int,
    {
        let (qualifier, name, arg, span): (&Option<String>, &String, Option<&Expr>, Span) = match e {
            Expr::Construct { qualifier, name, arg, span, .. } => (qualifier, name, match arg {
                Some(a) => Some(&**a),
                None => None,
            }, *span),
            Expr::ListConstruct { qualifier, name, elems, span, .. } => {
                proof {
                    assert(decreases_to!(elems => elems@));
                }
                (qualifier, name, if elems.len() > 0 {
                    Some(&elems[0])
                } else {
                    None
                }, *span)
            },
            _ => {
                return Err(broken(m, e.span()));
            },
        };
        if let Some((type_id, ctor)) = self.ctor_hit(m, qualifier, name) {
            let payload = match arg {
                Some(a) => {
                    let v = match self.eval_expr(depth, m, a, scope) {
                        Ok(v) => v,
                        Err(x) => {
                            return Err(x);
                        },
                    };
                    Some(Box::new(v))
                },
                None => None,
            };
            return Ok(Value::Adt { type_id, ctor, payload });
        }
        // constructions of usage types and builtin types are transparent at run time
        match arg {
            Some(a) => self.eval_expr(depth, m, a, scope),
            None => Err(broken(m, span)),
        }
    }

    /// Evaluates `TypeName { field = value ... }`: values in written order,
    /// stored in declared order.
    #[verifier::loop_isolation(false)]
    fn eval_record(&mut self, depth: usize, m: usize, e: &Expr, scope: &mut Vec<(String, Value)>) -> (r: EvalResult)
        requires
            depth <= MAX_DEPTH,
        ensures
            builtins::io_kept(old(self).io, final(self).io),
            r is Ok ==> final(self).io.starved == old(self).io.starved,
            final(self).env == old(self).env,
            final(self).loaded == old(self).loaded,
            final(self).consts == old(self).consts,
            !(*e is Record) ==> (r matches Err(x) && is_broken_at(x, m, e.spec_span())),
            e matches Expr::Record { qualifier, name, span, .. } ==> match type_of_name(old(self).env, m, *qualifier, name@) {
                None => r matches Err(x) && is_broken_at(x, m, *span),
                Some(id) => (record_width(old(self).env, id) is None ==> (r matches Err(x) && is_broken_at(x, m, *span)))
                    && (r matches Ok(v) ==> (v matches Value::Record(rv) && rv.type_id == id
                    && record_width(old(self).env, id) == Some(rv.fields@.len()))),
            },
            e matches Expr::Record { qualifier, name, fields, span, .. } ==> (type_of_name(old(self).env, m, *qualifier, name@)
                matches Some(id) ==> (record_width(old(self).env, id) matches Some(w) ==> (
                literal_inits(old(self).env, id, fields@, w) ==> record_outcome(old(self).env, id, fields@, w, m, *span, r)))),
        decreases MAX_DEPTH - depth, e, 3int,
    {
        let (qualifier, name, inits, span) = match e {
            Expr::Record { qualifier, name, fields, span, .. } => (qualifier, name, fields, *span),
            _ => {
                return Err(broken(m, e.span()));
            },
        };
        let type_id = match self.type_id_of(m, qualifier, name) {
            Some(id) => id,
            None => {
                return Err(broken(m, span));
            },
        };
        let nfields = match self.env.get_type(type_id) {
            Some(def) => match &def.kind {
                TypeDefKind::Record(fields) => fields.len(),
                _ => {
                    return Err(broken(m, span));
                },
            },
            None => {
                return Err(broken(m, span));
            },
        };
        let mut slots: Vec<Option<Value>> = Vec::new();
        let mut q: usize = 0;
        while q < nfields
            invariant
                slots@.len() == q,
                q <= nfields,
                forall|p: int| 0 <= p < q ==> #[trigger] slots@[p] is None,
            decreases nfields - q,
        {
            slots.push(None);
            q = q + 1;
        }
        let ghost ok = literal_inits(self.env, type_id, inits@, nfields as nat);
        let mut k: usize = 0;
        while k < inits.len()
            invariant
                depth <= MAX_DEPTH,
                slots@.len() == nfields,
                builtins::io_kept(old(self).io, self.io),
                self.io.starved == old(self).io.starved,
                self.env == old(self).env,
                self.loaded == old(self).loaded,
                self.consts == old(self).consts,
                k <= inits@.len(),
                ok ==> forall|p: int| 0 <= p < nfields ==> #[trigger] slots@[p] == init_value(self.env, type_id, inits@.take(k as int), p),
            decreases inits@.len() - k,
        {
            proof {
                assert(decreases_to!(inits => inits@));
                assert(decreases_to!(inits@ => inits@[k as int]));
            }
            let init = &inits[k];
            let idx = match self.field_index(type_id, init.name.as_str()) {
                Some(i) => i,
                None => {
                    return Err(broken(m, span));
                },
            };
            let ghost lit = lit_value(inits@[k as int].value);
            let v = self.eval_expr(depth, m, &init.value, scope)?;
            if idx >= slots.len() {
                return Err(broken(m, span));
            }
            let ghost before = slots@;
            slots.set(idx, Some(v));
            proof {
                if ok {
                    assert(lit == Some(v));
                    assert(inits@.take(k + 1).drop_last() =~= inits@.take(k as int));
                    assert forall|p: int| 0 <= p < nfields implies #[trigger] slots@[p] == init_value(self.env, type_id, inits@.take(k + 1), p) by {
                        assert(inits@.take(k + 1).last() == inits@[k as int]);
                    }
                }
            }
            k = k + 1;
        }
        proof {
            assert(inits@.take(inits@.len() as int) =~= inits@);
        }
        let mut fields: Vec<Value> = Vec::new();
        let mut q: usize = 0;
        while q < slots.len()
            invariant
                fields@.len() == q,
                q <= slots@.len(),
                forall|p: int| 0 <= p < q ==> #[trigger] slot_copied(slots@, fields@, p),
            decreases slots@.len() - q,
        {
            match &slots[q] {
                Some(v) => {
                    let ghost f0 = fields@;
                    fields.push(v.dup());
                    proof {
                        assert forall|p: int| 0 <= p < q + 1 implies #[trigger] slot_copied(slots@, fields@, p) by {
                            if p < q {
                                assert(fields@[p] == f0[p]);
                                assert(slot_copied(slots@, f0, p));
                            }
                        }
                    }
                },
                None => {
                    return Err(broken(m, span));
                },
            }
            q = q + 1;
        }
        proof {
            if ok {
                assert forall|p: int| 0 <= p < nfields implies #[trigger] init_value(self.env, type_id, inits@, p) is Some by {
                    assert(slot_copied(slots@, fields@, p));
                }
                assert forall|p: int| 0 <= p < nfields implies (init_value(self.env, type_id, inits@, p) matches Some(x)
                    && crate::value::same_value(x, #[trigger] fields@[p])) by {
                    assert(slot_copied(slots@, fields@, p));
                }
            }
        }
        Ok(Value::Record(RecordValue { type_id, fields }))
    }

    /// Evaluates `TypeName( elem... )`: a list usage type, or a parenthesised
    /// construction (as `eval_construct`).
    #[verifier::loop_isolation(false)]
    fn eval_list_construct(&mut self, depth: usize, m: usize, e: &Expr, scope: &mut Vec<(String, Value)>) -> (r: EvalResult)
        requires
            depth <= MAX_DEPTH,
        ensures
            builtins::io_kept(old(self).io, final(self).io),
            r is Ok ==> final(self).io.starved == old(self).io.starved,
            final(self).env == old(self).env,
            final(self).loaded == old(self).loaded,
            final(self).consts == old(self).consts,
            !(*e is ListConstruct) ==> (r matches Err(x) && is_broken_at(x, m, e.spec_span())),
            e matches Expr::ListConstruct { qualifier, name, elems, span, .. } ==> {
                let hit = ctor_of(old(self).env, m, *qualifier, name@);
                &&& elems@.len() == 1 && hit is Some ==> construct_outcome(hit, Some(elems@[0]), m, *span, r)
                &&& !(elems@.len() == 1 && hit is Some) && is_list_usage(old(self).env, type_of_name(old(self).env, m, *qualifier, name@))
                    ==> ((forall|i: int| 0 <= i < elems@.len() ==> #[trigger] lit_value(elems@[i]) is Some)
                    ==> (r matches Ok(Value::List(out)) && out@.len() == elems@.len()
                    && forall|i: int| 0 <= i < elems@.len() ==> lit_value(elems@[i]) == Some(#[trigger] out@[i])))
                &&& !(elems@.len() == 1 && hit is Some) && !is_list_usage(old(self).env, type_of_name(old(self).env, m, *qualifier, name@))
                    ==> (elems@.len() == 0 ==> (r matches Err(x) && is_broken_at(x, m, *span)))
                    && (elems@.len() > 0 ==> (lit_value(elems@[0]) matches Some(v) ==> r == Ok::<Value, RuntimeError>(v)))
            },
        decreases MAX_DEPTH - depth, e, 4int,
    {
        let (qualifier, name, elems, span) = match e {
            Expr::ListConstruct { qualifier, name, elems, span, .. } => (qualifier, name, elems, *span),
            _ => {
                return Err(broken(m, e.span()));
            },
        };
        // `Ctor (expr)`, read as a construction (the rule of the type checker)
        if elems.len() == 1 && self.ctor_hit(m, qualifier, name).is_some() {
            return self.eval_construct(depth, m, e, scope);
        }
        let is_list_usage = match self.type_id_of(m, qualifier, name) {
            Some(id) => match self.env.get_type(id) {
                Some(def) => match &def.kind {
                    TypeDefKind::Usage(Type::List(_)) => true,
                    _ => false,
                },
                None => false,
            },
            None => false,
        };
        proof {
            assert(decreases_to!(elems => elems@));
        }
        if is_list_usage {
            let mut out: Vec<Value> = Vec::new();
            let mut k: usize = 0;
            while k < elems.len()
                invariant
                    depth <= MAX_DEPTH,
                    builtins::io_kept(old(self).io, self.io),
                    self.io.starved == old(self).io.starved,
                    self.env == old(self).env,
                    self.loaded == old(self).loaded,
                    self.consts == old(self).consts,
                    k <= elems@.len(),
                    out@.len() == k,
                    forall|i: int| 0 <= i < k ==> lit_value(elems@[i]) is Some ==> lit_value(elems@[i]) == Some(#[trigger] out@[i]),
                decreases elems@.len() - k,
            {
                proof {
                    assert(decreases_to!(elems@ => elems@[k as int]));
                }
                let ghost lit = lit_value(elems@[k as int]);
                let v = self.eval_expr(depth, m, &elems[k], scope)?;
                assert(lit is Some ==> lit == Some(v));
                out.push(v);
                k = k + 1;
            }
            return Ok(Value::List(out));
        }
        // a parenthesised value of a usage type or a builtin type: transparent
        if elems.len() == 0 {
            return Err(broken(m, span));
        }
        proof {
            assert(decreases_to!(elems@ => elems@[0]));
        }
        self.eval_expr(depth, m, &elems[0], scope)
    }

    /// Evaluates a binary operation; `and` / `or` evaluate their right side
    /// only when the left one does not decide.
    #[verifier::loop_isolation(false)]
    fn eval_binary(&mut self, depth: usize, m: usize, e: &Expr, scope: &mut Vec<(String, Value)>) -> (r: EvalResult)
        requires
            depth <= MAX_DEPTH,
        ensures
            builtins::io_kept(old(self).io, final(self).io),
            r is Ok ==> final(self).io.starved == old(self).io.starved,
            final(self).env == old(self).env,
            final(self).loaded == old(self).loaded,
            final(self).consts == old(self).consts,
            !(*e is Binary) ==> (r matches Err(x) && is_broken_at(x, m, e.spec_span())),
            e matches Expr::Binary { op, left, right, span } ==> (lit_value(**left) matches Some(lv) ==> (
                lit_value(**right) matches Some(rv) ==> binary_outcome(*op, lv, rv, m, *span, r))),
            *e is Binary ==> (local_outcome(*e, scope_env(old(scope)@), old(self).loaded, old(self).env, m, depth as int, old(self).consts@)
                matches Some(o) ==> outcome_is(r, o) && final(scope)@ == old(scope)@ && final(self).io == old(self).io),
        decreases MAX_DEPTH - depth, e, 3int,
    {
        let (op, left, right, span) = match e {
            Expr::Binary { op, left, right, span } => (*op, &**left, &**right, *span),
            _ => {
                return Err(broken(m, e.span()));
            },
        };
        let ghost s0 = scope@;
        if op == BinOp::And || op == BinOp::Or {
            let lval = match self.eval_expr(depth, m, left, scope) {
                Ok(v) => v,
                Err(x) => {
                    return Err(x);
                },
            };
            let l = match lval {
                Value::Bool(b) => b,
                _ => {
                    return Err(broken(m, span));
                },
            };
            if op == BinOp::And && !l {
                return Ok(Value::Bool(false));
            }
            if op == BinOp::Or && l {
                return Ok(Value::Bool(true));
            }
            return self.eval_expr(depth, m, right, scope);
        }
        let lv = match self.eval_expr(depth, m, left, scope) {
            Ok(v) => v,
            Err(x) => {
                return Err(x);
            },
        };
        let rv = match self.eval_expr(depth, m, right, scope) {
            Ok(v) => v,
            Err(x) => {
                return Err(x);
            },
        };
        proof {
            if let Some(Ok(pl)) = local_outcome(*left, scope_env(s0), old(self).loaded, old(self).env, m, depth as int, old(self).consts@) {
                if let Some(Ok(pr)) = local_outcome(*right, scope_env(s0), old(self).loaded, old(self).env, m, depth as int, old(self).consts@) {
                    lemma_apply_same(op, pl, lv, pr, rv);
                }
            }
        }
        match apply_binary(op, &lv, &rv) {
            Ok(v) => {
                proof {
                    crate::value::lemma_same_value_refl(v);
                }
                Ok(v)
            },
            Err(f) => Err(RuntimeError::new(fault_message(f), m, span)),
        }
    }
}

/// What a run of `main` gives: the text written, and how the run ended.
pub struct RunOutcome {
    pub output: String,
    pub result: Result<(), RuntimeError>,
    /// `std.readText` wanted a line not known yet: run again once it is known
    pub needs_input: bool,
}

impl<'e> Interp<'e> {
    /// The flow `name` of module `m`: its declaration.
    fn flow_decl(&self, m: usize, name: &str) -> (r: Option<&'e crate::ast::FlowDecl>)
        ensures
            r is None <==> flow_decl_of(self.loaded, self.env, m, name@) is None,
            r matches Some(f) ==> flow_decl_of(self.loaded, self.env, m, name@) == Some(*f),
    {
        let env: &'e Env = self.env;
        let loaded: &'e Loaded = self.loaded;
        if m >= env.modules.len() || m >= loaded.units.len() {
            return None;
        }
        match env.modules[m].flow(name) {
            Some(info) => {
                let decls = &loaded.units[m].program.decls;
                if info.decl < decls.len() {
                    match &decls[info.decl] {
                        Decl::Flow(f) => Some(f),
                        _ => None,
                    }
                } else {
                    None
                }
            },
            None => None,
        }
    }

    /// Runs a rule called as a step of a flow.
    fn flow_rule(&mut self, depth: usize, m: usize, name: &str, current: Value, span: Span) -> (r: EvalResult)
        requires
            depth <= MAX_DEPTH,
        ensures
            builtins::io_kept(old(self).io, final(self).io),
            r is Ok ==> final(self).io.starved == old(self).io.starved,
            final(self).env == old(self).env,
            final(self).loaded == old(self).loaded,
            final(self).consts == old(self).consts,
            is_transition(old(self).loaded, old(self).env, m as int, name@) ==> r == Ok::<Value, RuntimeError>(current),
            rule_decl(old(self).loaded, old(self).env, m as int, name@) is None ==> r is Err,
            rule_outcome(old(self).loaded, old(self).env, m, name@, current, span, depth as int, old(self).consts@) matches Some(o)
                ==> outcome_is(r, o) && final(self).io == old(self).io,
    {
        let ghost pb = rule_body(self.loaded, self.env, m as int, name@);
        let ghost cur = current;
        let ghost ld = self.loaded;
        let ghost ge = self.env;
        let ghost dp = depth as int;
        match self.prepare_rule(m, name, current, span)? {
            Prepared::Done(v) => {
                proof {
                    crate::value::lemma_same_value_refl(v);
                }
                Ok(v)
            },
            Prepared::Body(m2, body, sc0) => {
                if depth >= MAX_DEPTH {
                    return Err(too_deep(m2, span));
                }
                let mut sc = sc0;
                let ghost s0 = sc@;
                proof {
                    if let Some((params, b)) = pb {
                        assert forall|k: Seq<char>| #[trigger] param_env(params, cur)(k) == scope_env(s0)(k) by {
                            assert(lookup(s0, k) == param_env(params, cur)(k));
                        }
                        lemma_envs_agree_eq(param_env(params, cur), scope_env(s0));
                        lemma_bindings_agree(b, 0, param_env(params, cur), scope_env(s0), ld, ge, m, dp + 1, old(self).consts@);
                    }
                }
                let res = self.eval_block(depth + 1, m2, body, &mut sc);
                proof {
                    if let Some((params, b)) = pb {
                        if let (Some(o1), Some(o2)) = (block_outcome(b, param_env(params, cur), ld, ge, m, dp + 1, old(self).consts@), block_outcome(b, scope_env(s0), ld, ge, m, dp + 1, old(self).consts@)) {
                            lemma_outcome_transfer(res, o1, o2);
                        }
                    }
                }
                match res {
                    Ok(v) => Ok(v),
                    Err(err) => Err(traced(err, "R ", name)),
                }
            },
        }
    }

    /// Runs the steps of a flow of module `m` from the value `current`.
    #[verifier::loop_isolation(false)]
    fn run_flow_steps(&mut self, depth: usize, m: usize, steps: &Vec<FlowStep>, current: Value) -> (r: EvalResult)
        requires
            depth <= MAX_DEPTH,
        ensures
            builtins::io_kept(old(self).io, final(self).io),
            r is Ok ==> final(self).io.starved == old(self).io.starved,
            final(self).env == old(self).env,
            final(self).loaded == old(self).loaded,
            final(self).consts == old(self).consts,
            (forall|i: int| 0 <= i < steps@.len() ==> #[trigger] is_transition_step(old(self).loaded, old(self).env, m, steps@[i]))
                ==> r == Ok::<Value, RuntimeError>(current),
            steps_outcome(steps@, 0, current, old(self).io.output@, old(self).loaded, old(self).env, m, depth as int, old(self).consts@)
                matches Some((o, t)) ==> outcome_is(r, o) && final(self).io.output@ == t,
        decreases MAX_DEPTH - depth, steps, 1int,
    {
        let ghost input = current;
        let ghost ld = self.loaded;
        let ghost ge = self.env;
        let ghost dp = depth as int;
        let ghost target = steps_outcome(steps@, 0, current, self.io.output@, ld, ge, m, dp, old(self).consts@);
        let ghost mut pcur = current;
        proof {
            crate::value::lemma_same_value_refl(current);
        }
        let mut current = current;
        let mut k: usize = 0;
        while k < steps.len()
            invariant
                depth <= MAX_DEPTH,
                builtins::io_kept(old(self).io, self.io),
                self.io.starved == old(self).io.starved,
                self.env == old(self).env,
                self.loaded == old(self).loaded,
                self.consts == old(self).consts,
                ld == self.loaded,
                ge == self.env,
                k <= steps@.len(),
                (forall|i: int| 0 <= i < steps@.len() ==> #[trigger] is_transition_step(old(self).loaded, old(self).env, m, steps@[i]))
                    ==> current == input,
                target is Some ==> steps_outcome(steps@, k as int, pcur, self.io.output@, ld, ge, m, dp, old(self).consts@) == target,
                target is Some ==> crate::value::same_value(pcur, current),
            decreases steps@.len() - k,
        {
            proof {
                assert(decreases_to!(steps => steps@));
                assert(decreases_to!(steps@ => steps@[k as int]));
            }
            proof {
                if forall|i: int| 0 <= i < steps@.len() ==> #[trigger] is_transition_step(old(self).loaded, old(self).env, m, steps@[i]) {
                    assert(is_transition_step(old(self).loaded, old(self).env, m, steps@[k as int]));
                }
            }
            let ghost out0 = self.io.output@;
            let ghost cur0 = current;
            proof {
                if target is Some {
                    lemma_step_agree(steps@[k as int], pcur, current, out0, ld, ge, m, dp, old(self).consts@);
                }
            }
            match &steps[k] {
                FlowStep::Initial(expr) => {
                    let mut scope: Vec<(String, Value)> = Vec::new();
                    proof {
                        assert(scope@ =~= Seq::<(String, Value)>::empty());
                    }
                    let res = self.eval_expr(depth, m, expr, &mut scope);
                    proof {
                        if target is Some {
                            let (o1, t1) = step_outcome(steps@[k as int], pcur, out0, ld, ge, m, dp, old(self).consts@)->Some_0;
                            let (o2, t2) = step_outcome(steps@[k as int], cur0, out0, ld, ge, m, dp, old(self).consts@)->Some_0;
                            lemma_outcome_transfer(res, o1, o2);
                            if let Ok(v) = o1 {
                                pcur = v;
                            }
                        }
                    }
                    current = match res {
                        Ok(v) => v,
                        Err(x) => {
                            return Err(x);
                        },
                    };
                },
                FlowStep::Call { .. } => {
                    let res = self.apply_flow_call(depth, m, &steps[k], current);
                    proof {
                        if target is Some {
                            let (o1, t1) = step_outcome(steps@[k as int], pcur, out0, ld, ge, m, dp, old(self).consts@)->Some_0;
                            let (o2, t2) = step_outcome(steps@[k as int], cur0, out0, ld, ge, m, dp, old(self).consts@)->Some_0;
                            lemma_outcome_transfer(res, o1, o2);
                            if let Ok(v) = o1 {
                                pcur = v;
                            }
                        }
                    }
                    current = match res {
                        Ok(v) => v,
                        Err(x) => {
                            return Err(x);
                        },
                    };
                },
                FlowStep::Match { arms, span } => {
                    let (type_id, ctor, payload) = match current {
                        Value::Adt { type_id, ctor, payload } => (type_id, ctor, payload),
                        _ => {
                            return Err(broken(m, *span));
                        },
                    };
                    let name = match self.ctor_name(type_id, ctor) {
                        Some(n) => n,
                        None => {
                            return Err(broken(m, *span));
                        },
                    };
                    let mut j: usize = 0;
                    while j < arms.len()
                        invariant
                            j <= arms@.len(),
                            forall|i: int| 0 <= i < j ==> (#[trigger] arms@[i]).ctor@ != name@,
                        decreases arms@.len() - j,
                    {
                        if str_eq(arms[j].ctor.as_str(), name.as_str()) {
                            break;
                        }
                        j = j + 1;
                    }
                    if j >= arms.len() {
                        return Err(broken(m, *span));
                    }
                    proof {
                        assert(decreases_to!(arms => arms@));
                        assert(decreases_to!(arms@ => arms@[j as int]));
                    }
                    let ghost pay = payload;
                    let start = match payload {
                        Some(p) => *p,
                        None => Value::Void,
                    };
                    let res = self.run_flow_steps(depth, m, &arms[j].steps, start);
                    proof {
                        assert(first_flow_arm(arms@, name@, j as int));
                        assert(start == arm_start(pay));
                        if target is Some {
                            assert forall|j2: int| first_flow_arm(arms@, name@, j2) implies j2 == j by {
                                if j2 < j {
                                    assert(arms@[j2].ctor@ != name@);
                                } else if j2 > j {
                                    assert(arms@[j as int].ctor@ != name@);
                                }
                            }
                            let (o1, t1) = step_outcome(steps@[k as int], pcur, out0, ld, ge, m, dp, old(self).consts@)->Some_0;
                            let (o2, t2) = step_outcome(steps@[k as int], cur0, out0, ld, ge, m, dp, old(self).consts@)->Some_0;
                            lemma_outcome_transfer(res, o1, o2);
                            if let Ok(v) = o1 {
                                pcur = v;
                            }
                        }
                    }
                    current = match res {
                        Ok(v) => v,
                        Err(x) => {
                            return Err(x);
                        },
                    };
                },
            }
            k = k + 1;
        }
        proof {
            if target is Some {
                crate::value::lemma_same_value_refl(current);
            }
        }
        Ok(current)
    }

    /// Runs a flow at call depth `depth`.
    fn run_flow_at(&mut self, depth: usize, m: usize, f: &crate::ast::FlowDecl, current: Value) -> (r: EvalResult)
        requires
            depth <= MAX_DEPTH,
        ensures
            builtins::io_kept(old(self).io, final(self).io),
            r is Ok ==> final(self).io.starved == old(self).io.starved,
            final(self).env == old(self).env,
            final(self).loaded == old(self).loaded,
            final(self).consts == old(self).consts,
            (forall|i: int| 0 <= i < f.steps@.len() ==> #[trigger] is_transition_step(old(self).loaded, old(self).env, m, f.steps@[i]))
                ==> r == Ok::<Value, RuntimeError>(current),
            r matches Err(x) ==> x.trace@.len() > 0 && x.trace@.last()@ == "F "@ + f.name@,
            flow_outcome(*f, current, old(self).io.output@, old(self).loaded, old(self).env, m, depth as int, old(self).consts@) matches Some((o, t))
                ==> outcome_is(r, o) && final(self).io.output@ == t,
        decreases MAX_DEPTH - depth, f.steps, 2int,
    {
        match self.run_flow_steps(depth, m, &f.steps, current) {
            Ok(v) => Ok(v),
            Err(err) => Err(traced(err, "F ", f.name.as_str())),
        }
    }

    /// A step of a flow that names a rule, a flow, a constant or a std builtin.
    #[verifier::loop_isolation(false)]
    fn apply_flow_call(&mut self, depth: usize, m: usize, step: &FlowStep, current: Value) -> (r: EvalResult)
        requires
            depth <= MAX_DEPTH,
        ensures
            builtins::io_kept(old(self).io, final(self).io),
            r is Ok ==> final(self).io.starved == old(self).io.starved,
            final(self).env == old(self).env,
            final(self).loaded == old(self).loaded,
            final(self).consts == old(self).consts,
            !(*step is Call) ==> (r matches Err(x) && is_broken_at(x, m, Span { start: 0, end: 0 })),
            step matches FlowStep::Call { path, span } ==> (path@.len() == 0 || m >= old(self).env.modules@.len()
                ==> (r matches Err(x) && is_broken_at(x, m, *span))),
            is_transition_step(old(self).loaded, old(self).env, m, *step) ==> r == Ok::<Value, RuntimeError>(current),
            step matches FlowStep::Call { path, span } ==> (path@.len() == 1 && m < old(self).env.modules@.len()
                && lookup(old(self).env.modules@[m as int].rules@, path@[0].0@) is None
                && flow_decl_of(old(self).loaded, old(self).env, m, path@[0].0@) is None ==> {
                &&& (r is Ok <==> exists|i: int| first_const(old(self).consts@, m, path@[0].0@, i))
                &&& (r matches Ok(v) ==> exists|i: int| first_const(old(self).consts@, m, path@[0].0@, i)
                    && crate::value::same_value(old(self).consts@[i].2, v))
                &&& (r matches Err(x) ==> is_broken_at(x, m, *span))
            }),
            step matches FlowStep::Call { path, span } ==> (path@.len() >= 2 && m < old(self).env.modules@.len()
                && lookup(old(self).env.modules@[m as int].aliases@, path@[0].0@) is None
                ==> (r matches Err(x) && is_broken_at(x, m, *span))),
            *step is Call ==> (step_outcome(*step, current, old(self).io.output@, old(self).loaded, old(self).env, m, depth as int, old(self).consts@)
                matches Some((o, t)) ==> outcome_is(r, o) && final(self).io.output@ == t),
        decreases MAX_DEPTH - depth, step, 0int,
    {
        let (path, span) = match step {
            FlowStep::Call { path, span } => (path, *span),
            _ => {
                return Err(broken(m, Span::new(0, 0)));
            },
        };
        if path.len() == 0 || m >= self.env.modules.len() {
            return Err(broken(m, span));
        }
        let env: &'e Env = self.env;
        if path.len() == 1 {
            let name = path[0].0.as_str();
            if crate::types::has_key(&env.modules[m].rules, name) {
                return self.flow_rule(depth, m, name, current, span);
            }
            if let Some(f) = self.flow_decl(m, name) {
                if depth >= MAX_DEPTH {
                    return Err(too_deep(m, f.name_span));
                }
                return self.run_flow_at(depth + 1, m, f, current);
            }
            return match self.const_value(m, name) {
                Some(v) => Ok(v),
                None => Err(broken(m, span)),
            };
        }
        let fname = path[1].0.as_str();
        match env.modules[m].alias(path[0].0.as_str()) {
            Some(ModuleRef::Std(module)) => {
                let b = match builtins::lookup(module, fname) {
                    Some(b) => b,
                    None => {
                        return Err(broken(m, span));
                    },
                };
                let mut vals: Vec<Value> = Vec::new();
                vals.push(current);
                match builtins::eval(b, &vals, env, &mut self.io) {
                    Ok(v) => Ok(v),
                    Err(msg) => Err(RuntimeError::new(msg, m, span)),
                }
            },
            Some(ModuleRef::User(mid)) => {
                if mid >= env.modules.len() {
                    return Err(broken(m, span));
                }
                if crate::types::has_key(&env.modules[mid].rules, fname) {
                    return self.flow_rule(depth, mid, fname, current, span);
                }
                if let Some(f) = self.flow_decl(mid, fname) {
                    if depth >= MAX_DEPTH {
                        return Err(too_deep(mid, f.name_span));
                    }
                    return self.run_flow_at(depth + 1, mid, f, current);
                }
                match self.const_value(mid, fname) {
                    Some(v) => Ok(v),
                    None => Err(broken(m, span)),
                }
            },
            None => Err(broken(m, span)),
        }
    }

    /// Evaluates the constants ahead of the run: modules in dependency order,
    /// each module's constants in its dependency order.
    #[verifier::loop_isolation(false)]
    fn init_consts(&mut self) -> (r: Result<(), RuntimeError>)
        ensures
            builtins::io_kept(old(self).io, final(self).io),
            r is Ok ==> final(self).io.starved == old(self).io.starved,
            final(self).env == old(self).env,
            final(self).loaded == old(self).loaded,
            no_constants(old(self).env) ==> r is Ok && final(self).io == old(self).io,
            consts_fit(old(self).loaded, old(self).env, old(self).consts@) ==> consts_fit(old(self).loaded, old(self).env, final(self).consts@),
            r is Ok ==> consts_complete(old(self).loaded, old(self).env, final(self).consts@),
            r is Err ==> const_fails(old(self).loaded, old(self).env, final(self).consts@),
    {
        let env: &'e Env = self.env;
        let loaded: &'e Loaded = self.loaded;
        let ghost fit0 = consts_fit(loaded, env, self.consts@);
        let mut q: usize = 0;
        while q < env.order.len()
            invariant
                builtins::io_kept(old(self).io, self.io),
                self.io.starved == old(self).io.starved,
                self.env == old(self).env,
                self.loaded == old(self).loaded,
                env == self.env,
                loaded == self.loaded,
                env == old(self).env,
                loaded == old(self).loaded,
                fit0 == consts_fit(loaded, env, old(self).consts@),
                no_constants(env) ==> self.io == old(self).io,
                fit0 ==> consts_fit(loaded, env, self.consts@),
                complete_before(loaded, env, self.consts@, q as int, 0),
            decreases env.order@.len() - q,
        {
            let m = env.order[q];
            if m < env.modules.len() && m < loaded.units.len() {
                let module = &env.modules[m];
                let decls = &loaded.units[m].program.decls;
                let mut k: usize = 0;
                while k < module.const_order.len()
                    invariant
                        builtins::io_kept(old(self).io, self.io),
                        self.io.starved == old(self).io.starved,
                        self.env == old(self).env,
                        self.loaded == old(self).loaded,
                        no_constants(env) ==> self.io == old(self).io,
                        no_constants(env) ==> module.const_order@.len() == 0,
                        fit0 ==> consts_fit(loaded, env, self.consts@),
                        complete_before(loaded, env, self.consts@, q as int, k as int),
                        k <= module.const_order@.len(),
                    decreases module.const_order@.len() - k,
                {
                    let name = &module.const_order[k];
                    proof {
                        assert(const_at(env, q as int, k as int) == Some((m, name@)));
                    }
                    let ghost cs_k = self.consts@;
                    let ghost mut pushed = false;
                    if let Some(d) = module.konst(name.as_str()) {
                        if d < decls.len() {
                            if let Decl::Const(c) = &decls[d] {
                                let mut scope: Vec<(String, Value)> = Vec::new();
                                proof {
                                    assert(scope@ =~= Seq::<(String, Value)>::empty());
                                }
                                let ghost cs0 = self.consts@;
                                let res = self.eval_expr(0, m, &c.value, &mut scope);
                                let v = match res {
                                    Ok(v) => v,
                                    Err(x) => {
                                        proof {
                                            assert(const_expr(loaded, env, m, name@) == Some(c.value));
                                            assert(const_at(env, q as int, k as int) == Some((m, name@)));
                                        }
                                        return Err(x);
                                    },
                                };
                                let entry = (m, name.clone(), v);
                                proof {
                                    assert(const_expr(loaded, env, m, name@) == Some(c.value));
                                    if fit0 {
                                        lemma_fit_push(loaded, env, cs0, entry);
                                    }
                                    lemma_complete_push(loaded, env, cs0, entry, q as int, k as int);
                                    assert(cs0.push(entry)[cs0.len() as int] == entry);
                                }
                                self.consts.push(entry);
                                proof {
                                    pushed = true;
                                }
                            }
                        }
                    }
                    proof {
                        assert(const_expr(loaded, env, m, name@) is Some ==> pushed);
                        assert(!pushed ==> self.consts@ == cs_k);
                        assert(pushed ==> self.consts@.len() == cs_k.len() + 1 && self.consts@.last().0 == m && self.consts@.last().1@ == name@);
                        assert(complete_before(loaded, env, self.consts@, q as int, k as int));
                    }
                    proof {
                        assert forall|q2: int, k2: int| (q2 < q || (q2 == q && k2 < k + 1)) implies (#[trigger] const_at(env, q2, k2) matches Some((mm, nn))
                            ==> (const_expr(loaded, env, mm, nn) is Some ==> exists|i: int| 0 <= i < self.consts@.len() && self.consts@[i].0 == mm
                            && self.consts@[i].1@ == nn)) by {
                            if q2 == q && k2 == k {
                                if let Some((mm, nn)) = const_at(env, q2, k2) {
                                    if const_expr(loaded, env, mm, nn) is Some {
                                        let i = (self.consts@.len() - 1) as int;
                                        assert(self.consts@[i].0 == mm && self.consts@[i].1@ == nn);
                                    }
                                }
                            }
                        }
                    }
                    k = k + 1;
                }
                proof {
                    assert forall|q2: int, k2: int| (q2 < q + 1 || (q2 == q + 1 && k2 < 0)) implies (#[trigger] const_at(env, q2, k2) matches Some((mm, nn))
                        ==> (const_expr(loaded, env, mm, nn) is Some ==> exists|i: int| 0 <= i < self.consts@.len() && self.consts@[i].0 == mm
                        && self.consts@[i].1@ == nn)) by {
                        if q2 == q {
                            assert(const_at(env, q2, k2) is Some ==> k2 < k);
                        }
                    }
                }
            } else {
                proof {
                    assert forall|q2: int, k2: int| (q2 < q + 1 || (q2 == q + 1 && k2 < 0)) implies (#[trigger] const_at(env, q2, k2) matches Some((mm, nn))
                        ==> (const_expr(loaded, env, mm, nn) is Some ==> exists|i: int| 0 <= i < self.consts@.len() && self.consts@[i].0 == mm
                        && self.consts@[i].1@ == nn)) by {
                        if q2 == q {
                            if let Some((mm, nn)) = const_at(env, q2, k2) {
                                assert(const_expr(loaded, env, mm, nn) is None);
                            }
                        }
                    }
                }
            }
            q = q + 1;
        }
        proof {
            assert forall|q2: int, k2: int| #[trigger] const_at(env, q2, k2) is Some implies q2 < q by {}
        }
        Ok(())
    }
}

/// The right-hand side of the constant `name` of module `m`.
pub open spec fn const_expr(loaded: &Loaded, env: &Env, m: usize, name: Seq<char>) -> Option<Expr> {
    if m < env.modules@.len() && m < loaded.units@.len() {
        match lookup(env.modules@[m as int].consts@, name) {
            Some(d) => if d < loaded.units@[m as int].program.decls@.len() {
                match loaded.units@[m as int].program.decls@[d as int] {
                    Decl::Const(c) => Some(c.value),
                    _ => None,
                }
            } else {
                None
            },
            None => None,
        }
    } else {
        None
    }
}

/// Each entry of `cs` is a constant's value: what the constant's right-hand
/// side gives (where `local_outcome` states it) with the entries before it.
pub open spec fn consts_fit(loaded: &Loaded, env: &Env, cs: Seq<(usize, String, Value)>) -> bool {
    forall|i: int|
        0 <= i < cs.len() ==> (const_expr(loaded, env, (#[trigger] cs[i]).0, cs[i].1@) matches Some(ce) && (local_outcome(
            ce,
            scope_env(Seq::empty()),
            loaded,
            env,
            cs[i].0,
            0,
            cs.take(i),
        ) matches Some(o) ==> (o matches Ok(v) && crate::value::same_value(v, cs[i].2))))
}

/// The constant `k` of the `q`-th module in dependency order, with its module.
pub open spec fn const_at(env: &Env, q: int, k: int) -> Option<(usize, Seq<char>)> {
    if 0 <= q < env.order@.len() && env.order@[q] < env.modules@.len() && 0 <= k < env.modules@[env.order@[q] as int].const_order@.len() {
        Some((env.order@[q], env.modules@[env.order@[q] as int].const_order@[k]@))
    } else {
        None
    }
}

/// Every constant of every module has an entry in `cs`.
pub open spec fn consts_complete(loaded: &Loaded, env: &Env, cs: Seq<(usize, String, Value)>) -> bool {
    forall|q: int, k: int|
        #[trigger] const_at(env, q, k) matches Some((mm, nn)) ==> (const_expr(loaded, env, mm, nn) is Some ==> exists|i: int|
            0 <= i < cs.len() && cs[i].0 == mm && cs[i].1@ == nn)
}

/// Some constant's right-hand side gives no value with the entries `cs`.
pub open spec fn const_fails(loaded: &Loaded, env: &Env, cs: Seq<(usize, String, Value)>) -> bool {
    exists|q: int, k: int|
        #[trigger] const_at(env, q, k) matches Some((mm, nn)) && const_expr(loaded, env, mm, nn) matches Some(ce) && !(local_outcome(
            ce,
            scope_env(Seq::empty()),
            loaded,
            env,
            mm,
            0,
            cs,
        ) matches Some(Ok(_)))
}

/// Every constant before the `k`-th constant of the `q`-th module in
/// dependency order has an entry in `cs`.
pub open spec fn complete_before(loaded: &Loaded, env: &Env, cs: Seq<(usize, String, Value)>, q: int, k: int) -> bool {
    forall|q2: int, k2: int|
        (q2 < q || (q2 == q && k2 < k)) ==> (#[trigger] const_at(env, q2, k2) matches Some((mm, nn)) ==> (const_expr(
            loaded,
            env,
            mm,
            nn,
        ) is Some ==> exists|i: int| 0 <= i < cs.len() && cs[i].0 == mm && cs[i].1@ == nn))
}

/// A value that fits a constant's right-hand side keeps `consts_fit`.
proof fn lemma_fit_push(loaded: &Loaded, env: &Env, cs: Seq<(usize, String, Value)>, x: (usize, String, Value))
    requires
        consts_fit(loaded, env, cs),
        const_expr(loaded, env, x.0, x.1@) matches Some(ce) && (local_outcome(ce, scope_env(Seq::empty()), loaded, env, x.0, 0, cs)
            matches Some(o) ==> (o matches Ok(v) && crate::value::same_value(v, x.2))),
    ensures
        consts_fit(loaded, env, cs.push(x)),
{
    assert forall|i: int| 0 <= i < cs.push(x).len() implies (const_expr(loaded, env, (#[trigger] cs.push(x)[i]).0, cs.push(x)[i].1@) matches Some(ce)
        && (local_outcome(ce, scope_env(Seq::empty()), loaded, env, cs.push(x)[i].0, 0, cs.push(x).take(i)) matches Some(o)
        ==> (o matches Ok(v) && crate::value::same_value(v, cs.push(x)[i].2)))) by {
        if i < cs.len() {
            assert(cs.push(x).take(i) =~= cs.take(i));
            assert(cs.push(x)[i] == cs[i]);
        } else {
            assert(cs.push(x).take(i) =~= cs);
        }
    }
}

/// An entry appended keeps every entry found before.
proof fn lemma_complete_push(loaded: &Loaded, env: &Env, cs: Seq<(usize, String, Value)>, x: (usize, String, Value), q: int, k: int)
    requires
        complete_before(loaded, env, cs, q, k),
    ensures
        complete_before(loaded, env, cs.push(x), q, k),
{
    assert forall|q2: int, k2: int| (q2 < q || (q2 == q && k2 < k)) implies (#[trigger] const_at(env, q2, k2) matches Some((mm, nn)) ==> (const_expr(
        loaded,
        env,
        mm,
        nn,
    ) is Some ==> exists|i: int| 0 <= i < cs.push(x).len() && cs.push(x)[i].0 == mm && cs.push(x)[i].1@ == nn)) by {
        if let Some((mm, nn)) = const_at(env, q2, k2) {
            if const_expr(loaded, env, mm, nn) is Some {
                let i = choose|i: int| 0 <= i < cs.len() && cs[i].0 == mm && cs[i].1@ == nn;
                assert(cs.push(x)[i] == cs[i]);
            }
        }
    }
}

/// A run of `main` that ended as `out`, from the console text `before`: the
/// constants took the values `cs` (as `consts_fit` states), leaving the text
/// `t0` (the text before where there are no constants); then either all
/// constants had values and `main` ran as `flow_outcome` states, or some
/// constant had none and the run failed.
pub open spec fn main_ran(loaded: &Loaded, env: &Env, before: Seq<char>, out: RunOutcome, cs: Seq<(usize, String, Value)>, t0: Seq<char>) -> bool {
    &&& consts_fit(loaded, env, cs)
    &&& no_constants(env) ==> t0 == before
    &&& (consts_complete(loaded, env, cs) && (flow_decl_of(loaded, env, ENTRY, "main"@) matches Some(f) ==> (flow_outcome(
        f,
        Value::Void,
        t0,
        loaded,
        env,
        ENTRY,
        1,
        cs,
    ) matches Some((o, t)) ==> out.output@ == t && run_result_is(out.result, o)))) || (out.result is Err && const_fails(
        loaded,
        env,
        cs,
    ))
}

/// Runs `main` of the entry module with the console `io`: its constants are
/// evaluated first. An error that reaches `main` ends the run.
pub fn run_main(loaded: &Loaded, env: &Env, io: Io) -> (out: RunOutcome)
    ensures
        io.output@.len() <= out.output@.len(),
        forall|i: int| 0 <= i < io.output@.len() ==> #[trigger] out.output@[i] == io.output@[i],
        io.starved ==> out.needs_input,
        out.result is Ok ==> out.needs_input == io.starved,
        flow_decl_of(loaded, env, ENTRY, "main"@) is None ==> out.result is Err,
        exists|cs: Seq<(usize, String, Value)>, t0: Seq<char>| #[trigger] main_ran(loaded, env, io.output@, out, cs, t0),
{
    let mut interp = Interp { loaded, env, consts: Vec::new(), io };
    proof {
        assert(consts_fit(loaded, env, interp.consts@));
    }
    let init = interp.init_consts();
    let ghost cs = interp.consts@;
    let ghost t0 = interp.io.output@;
    let result = match init {
        Err(e) => Err(e),
        Ok(()) => match interp.flow_decl(ENTRY, "main") {
            Some(f) => match interp.run_flow_at(1, ENTRY, f, Value::Void) {
                Ok(_) => Ok(()),
                Err(e) => Err(e),
            },
            None => Err(broken(ENTRY, Span::new(0, 0))),
        },
    };
    let needs_input = interp.io.starved;
    let out = RunOutcome { output: interp.io.output, result, needs_input };
    proof {
        assert(main_ran(loaded, env, io.output@, out, cs, t0));
    }
    out
}

/// Runs the rule `name` of the entry module on `arg`, after evaluating the
/// constants, with a console that has no input.
pub fn run_rule(loaded: &Loaded, env: &Env, name: &str, arg: Value) -> (r: Result<Value, RuntimeError>)
    ensures
        rule_decl(loaded, env, ENTRY as int, name@) is None ==> r is Err,
        is_transition(loaded, env, ENTRY as int, name@) && r is Ok ==> r == Ok::<Value, RuntimeError>(arg),
        is_transition(loaded, env, ENTRY as int, name@) && no_constants(env) ==> r == Ok::<Value, RuntimeError>(arg),
        exists|cs: Seq<(usize, String, Value)>|
            consts_fit(loaded, env, cs) && ((consts_complete(loaded, env, cs) && (rule_outcome(loaded, env, ENTRY, name@, arg, Span {
                start: 0,
                end: 0,
            }, 0, cs) matches Some(o) ==> outcome_is(r, o))) || (r is Err && const_fails(loaded, env, cs))),
{
    let io = Io::new(Vec::new(), true, None);
    let mut interp = Interp { loaded, env, consts: Vec::new(), io };
    proof {
        assert(consts_fit(loaded, env, interp.consts@));
    }
    let init = interp.init_consts();
    let ghost cs = interp.consts@;
    match init {
        Err(e) => {
            proof {
                assert(consts_fit(loaded, env, cs) && const_fails(loaded, env, cs));
            }
            Err(e)
        },
        Ok(()) => interp.flow_rule(0, ENTRY, name, arg, Span::new(0, 0)),
    }
}

/// `==` is symmetric.
pub proof fn law_equals_symmetric(a: Value, b: Value)
    ensures
        crate::value::spec_equals(a, b) == crate::value::spec_equals(b, a),
{
}

/// Comparing the other way round gives the opposite order, and the order is
/// "equal" exactly when `==` holds.
pub proof fn law_compare_antisymmetric(a: Value, b: Value)
    ensures
        spec_compare(a, b) matches Some(c) ==> spec_compare(b, a) == Some((-c) as i8),
        spec_compare(a, b) is Some ==> (spec_compare(a, b) == Some(0i8) <==> crate::value::spec_equals(a, b)),
{
    match (a, b) {
        (Value::Text(x), Value::Text(y)) => {
            crate::text::law_text_order(x@, y@);
            crate::text::law_text_order(y@, x@);
        },
        (Value::Char(x), Value::Char(y)) => {
            crate::text::lemma_char_code(x);
            crate::text::lemma_char_code(y);
        },
        _ => {},
    }
}

/// Integer division rounds toward zero and the remainder makes up the
/// difference: `a == b * (a / b) + a % b`, with the remainder smaller than
/// the divisor and of the dividend's sign.
pub proof fn law_div_rem(a: i64, b: i64)
    ensures
        spec_int_arith(BinOp::Div, a, b) matches Ok(q) ==> (spec_int_arith(BinOp::Rem, a, b) matches Ok(r) ==> {
            &&& a == b * q + r
            &&& (if r < 0 { -r } else { r as int }) < (if b < 0 { -b } else { b as int })
            &&& (r != 0 ==> (r < 0) == (a < 0))
        }),
{
    if b != 0 {
        let aa: int = if a < 0 { -a } else { a as int };
        let ab: int = if b < 0 { -b } else { b as int };
        let q0 = aa / ab;
        let r0 = aa % ab;
        assert(aa == ab * q0 + r0 && 0 <= r0 < ab) by (nonlinear_arith)
            requires
                ab > 0,
                aa >= 0,
                q0 == aa / ab,
                r0 == aa % ab,
        ;
        let t = tdiv(a as int, b as int);
        let rem = a - b * t;
        if a < 0 && b < 0 {
            assert(rem == -r0) by (nonlinear_arith)
                requires t == q0, aa == -a, ab == -b, aa == ab * q0 + r0, rem == a - b * t;
        } else if a < 0 {
            assert(rem == -r0) by (nonlinear_arith)
                requires t == -q0, aa == -a, ab == b, aa == ab * q0 + r0, rem == a - b * t;
        } else if b < 0 {
            assert(rem == r0) by (nonlinear_arith)
                requires t == -q0, aa == a, ab == -b, aa == ab * q0 + r0, rem == a - b * t;
        } else {
            assert(rem == r0) by (nonlinear_arith)
                requires t == q0, aa == a, ab == b, aa == ab * q0 + r0, rem == a - b * t;
        }
    }
}

} // verus!
