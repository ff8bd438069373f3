//! The builtin standard library: module names and builtin names.
//! Signatures come from the declaration file std.tcrf (see `stdsig`).
use crate::decimal::{
    dec_abs, dec_checked_add, dec_floor, dec_floor_i64, dec_from_i64, dec_normalize, dec_round_half_away,
    dec_round_i64, decimal_add, decimal_text, fit_i64, parse_decimal, Dec,
};
use crate::text::{chars_of, parse_int, strip_line_end, text_contains, text_lower, text_trim, text_upper};
use crate::text_fmt::{cat2, cat3, cat4, i64_text, join_with, joined, str_eq, views};
use crate::types::{Env, TypeDefKind};
use crate::value::{dup_all, same_top, same_value, spec_equals, RecordValue, Value};
use vstd::prelude::*;
use vstd::string::*;

verus! {

#[derive(Debug, Clone, Copy, PartialEq, Eq, Structural)]
pub enum StdModule {
    Std,
    Console,
    List,
    Range,
    Format,
    Text,
    Number,
    Validate,
}

/// The std module a dotted import path names.
pub open spec fn spec_module_from_path(path: Seq<Seq<char>>) -> Option<StdModule> {
    if path.len() == 1 && path[0] == "std"@ {
        Some(StdModule::Std)
    } else if path.len() == 2 && path[0] == "std"@ {
        if path[1] == "console"@ {
            Some(StdModule::Console)
        } else if path[1] == "list"@ {
            Some(StdModule::List)
        } else if path[1] == "range"@ {
            Some(StdModule::Range)
        } else if path[1] == "format"@ {
            Some(StdModule::Format)
        } else if path[1] == "text"@ {
            Some(StdModule::Text)
        } else if path[1] == "number"@ {
            Some(StdModule::Number)
        } else if path[1] == "validate"@ {
            Some(StdModule::Validate)
        } else {
            None
        }
    } else {
        None
    }
}

pub open spec fn path_view(path: Seq<String>) -> Seq<Seq<char>> {
    path.map_values(|s: String| s@)
}

/// The std module an import path (such as `["std", "console"]`) names.
pub fn module_from_path(path: &[String]) -> (r: Option<StdModule>)
    ensures
        r == spec_module_from_path(path_view(path@)),
{
    proof {
        assert(path.len() >= 1 ==> path_view(path@)[0] == path@[0]@);
        assert(path.len() >= 2 ==> path_view(path@)[1] == path@[1]@);
    }
    if path.len() == 1 && str_eq(path[0].as_str(), "std") {
        Some(StdModule::Std)
    } else if path.len() == 2 && str_eq(path[0].as_str(), "std") {
        let seg = path[1].as_str();
        if str_eq(seg, "console") {
            Some(StdModule::Console)
        } else if str_eq(seg, "list") {
            Some(StdModule::List)
        } else if str_eq(seg, "range") {
            Some(StdModule::Range)
        } else if str_eq(seg, "format") {
            Some(StdModule::Format)
        } else if str_eq(seg, "text") {
            Some(StdModule::Text)
        } else if str_eq(seg, "number") {
            Some(StdModule::Number)
        } else if str_eq(seg, "validate") {
            Some(StdModule::Validate)
        } else {
            None
        }
    } else {
        None
    }
}

#[derive(Debug, Clone, Copy, PartialEq, Eq, Structural)]
pub enum Builtin {
    Print,
    PrintLine,
    ReadText,
    Debug,
    IsEmpty,
    First,
    Rest,
    Prepend,
    Length,
    Reverse,
    Append,
    Contains,
    SumInt,
    SumDecimal,
    Inclusive,
    Exclusive,
    FmtInt,
    FmtDecimal,
    FmtBool,
    IntList,
    DecimalList,
    TextList,
    TextLength,
    Trim,
    Lower,
    Upper,
    Concat,
    TextContains,
    ParseInt,
    ParseDecimal,
    ToDecimal,
    Floor,
    Round,
    AbsInt,
    AbsDecimal,
    Require,
    RequireNotEmpty,
}

/// The builtin a public name of a std module denotes (`empty` is handled by
/// the language itself).
pub open spec fn spec_lookup(m: StdModule, name: Seq<char>) -> Option<Builtin> {
    if (m == StdModule::Std && name == "print"@) || (m == StdModule::Console && name == "print"@) {
        Some(Builtin::Print)
    } else
    if (m == StdModule::Std && name == "printLine"@) || (m == StdModule::Console && name == "printLine"@) {
        Some(Builtin::PrintLine)
    } else
    if (m == StdModule::Std && name == "readText"@) || (m == StdModule::Console && name == "readText"@) {
        Some(Builtin::ReadText)
    } else
    if (m == StdModule::Std && name == "debug"@) || (m == StdModule::Console && name == "debug"@) {
        Some(Builtin::Debug)
    } else
    if (m == StdModule::Std && name == "isEmpty"@) || (m == StdModule::List && name == "isEmpty"@) {
        Some(Builtin::IsEmpty)
    } else
    if (m == StdModule::Std && name == "first"@) || (m == StdModule::List && name == "first"@) {
        Some(Builtin::First)
    } else
    if (m == StdModule::Std && name == "rest"@) || (m == StdModule::List && name == "rest"@) {
        Some(Builtin::Rest)
    } else
    if (m == StdModule::Std && name == "prepend"@) || (m == StdModule::List && name == "prepend"@) {
        Some(Builtin::Prepend)
    } else
    if (m == StdModule::Std && name == "length"@) || (m == StdModule::List && name == "length"@) {
        Some(Builtin::Length)
    } else
    if (m == StdModule::Std && name == "reverse"@) || (m == StdModule::List && name == "reverse"@) {
        Some(Builtin::Reverse)
    } else
    if (m == StdModule::Std && name == "append"@) || (m == StdModule::List && name == "append"@) {
        Some(Builtin::Append)
    } else
    if (m == StdModule::Std && name == "contains"@) || (m == StdModule::List && name == "contains"@) {
        Some(Builtin::Contains)
    } else
    if (m == StdModule::Std && name == "sumInt"@) || (m == StdModule::List && name == "sumInt"@) {
        Some(Builtin::SumInt)
    } else
    if (m == StdModule::Std && name == "sumDecimal"@) || (m == StdModule::List && name == "sumDecimal"@) {
        Some(Builtin::SumDecimal)
    } else
    if (m == StdModule::Std && name == "inclusive"@) || (m == StdModule::Range && name == "inclusive"@) {
        Some(Builtin::Inclusive)
    } else
    if (m == StdModule::Std && name == "exclusive"@) || (m == StdModule::Range && name == "exclusive"@) {
        Some(Builtin::Exclusive)
    } else
    if (m == StdModule::Std && name == "int"@) || (m == StdModule::Format && name == "int"@) {
        Some(Builtin::FmtInt)
    } else
    if (m == StdModule::Std && name == "decimal"@) || (m == StdModule::Format && name == "decimal"@) {
        Some(Builtin::FmtDecimal)
    } else
    if (m == StdModule::Std && name == "bool"@) || (m == StdModule::Format && name == "bool"@) {
        Some(Builtin::FmtBool)
    } else
    if (m == StdModule::Std && name == "intList"@) || (m == StdModule::Format && name == "intList"@) {
        Some(Builtin::IntList)
    } else
    if (m == StdModule::Std && name == "decimalList"@) || (m == StdModule::Format && name == "decimalList"@) {
        Some(Builtin::DecimalList)
    } else
    if (m == StdModule::Std && name == "textList"@) || (m == StdModule::Format && name == "textList"@) {
        Some(Builtin::TextList)
    } else
    if (m == StdModule::Std && name == "trim"@) || (m == StdModule::Text && name == "trim"@) {
        Some(Builtin::Trim)
    } else
    if (m == StdModule::Std && name == "lower"@) || (m == StdModule::Text && name == "lower"@) {
        Some(Builtin::Lower)
    } else
    if (m == StdModule::Std && name == "upper"@) || (m == StdModule::Text && name == "upper"@) {
        Some(Builtin::Upper)
    } else
    if (m == StdModule::Std && name == "concat"@) || (m == StdModule::Text && name == "concat"@) {
        Some(Builtin::Concat)
    } else
    if (m == StdModule::Std && name == "textContains"@) || (m == StdModule::Text && name == "contains"@) {
        Some(Builtin::TextContains)
    } else
    if (m == StdModule::Std && name == "parseInt"@) || (m == StdModule::Text && name == "parseInt"@) {
        Some(Builtin::ParseInt)
    } else
    if (m == StdModule::Std && name == "parseDecimal"@) || (m == StdModule::Text && name == "parseDecimal"@) {
        Some(Builtin::ParseDecimal)
    } else
    if (m == StdModule::Std && name == "textLength"@) || (m == StdModule::Text && name == "length"@) {
        Some(Builtin::TextLength)
    } else
    if (m == StdModule::Std && name == "toDecimal"@) || (m == StdModule::Number && name == "toDecimal"@) {
        Some(Builtin::ToDecimal)
    } else
    if (m == StdModule::Std && name == "floor"@) || (m == StdModule::Number && name == "floor"@) {
        Some(Builtin::Floor)
    } else
    if (m == StdModule::Std && name == "round"@) || (m == StdModule::Number && name == "round"@) {
        Some(Builtin::Round)
    } else
    if (m == StdModule::Std && name == "absInt"@) || (m == StdModule::Number && name == "absInt"@) {
        Some(Builtin::AbsInt)
    } else
    if (m == StdModule::Std && name == "absDecimal"@) || (m == StdModule::Number && name == "absDecimal"@) {
        Some(Builtin::AbsDecimal)
    } else
    if (m == StdModule::Std && name == "require"@) || (m == StdModule::Validate && name == "require"@) {
        Some(Builtin::Require)
    } else
    if (m == StdModule::Std && name == "requireNotEmpty"@) || (m == StdModule::Validate && name == "requireNotEmpty"@) {
        Some(Builtin::RequireNotEmpty)
    } else {
        None
    }
}

pub fn lookup(module: StdModule, name: &str) -> (r: Option<Builtin>)
    ensures
        r == spec_lookup(module, name@),
{
    if (module == StdModule::Std && str_eq(name, "print")) || (module == StdModule::Console && str_eq(name, "print")) {
        Some(Builtin::Print)
    } else
    if (module == StdModule::Std && str_eq(name, "printLine")) || (module == StdModule::Console && str_eq(name, "printLine")) {
        Some(Builtin::PrintLine)
    } else
    if (module == StdModule::Std && str_eq(name, "readText")) || (module == StdModule::Console && str_eq(name, "readText")) {
        Some(Builtin::ReadText)
    } else
    if (module == StdModule::Std && str_eq(name, "debug")) || (module == StdModule::Console && str_eq(name, "debug")) {
        Some(Builtin::Debug)
    } else
    if (module == StdModule::Std && str_eq(name, "isEmpty")) || (module == StdModule::List && str_eq(name, "isEmpty")) {
        Some(Builtin::IsEmpty)
    } else
    if (module == StdModule::Std && str_eq(name, "first")) || (module == StdModule::List && str_eq(name, "first")) {
        Some(Builtin::First)
    } else
    if (module == StdModule::Std && str_eq(name, "rest")) || (module == StdModule::List && str_eq(name, "rest")) {
        Some(Builtin::Rest)
    } else
    if (module == StdModule::Std && str_eq(name, "prepend")) || (module == StdModule::List && str_eq(name, "prepend")) {
        Some(Builtin::Prepend)
    } else
    if (module == StdModule::Std && str_eq(name, "length")) || (module == StdModule::List && str_eq(name, "length")) {
        Some(Builtin::Length)
    } else
    if (module == StdModule::Std && str_eq(name, "reverse")) || (module == StdModule::List && str_eq(name, "reverse")) {
        Some(Builtin::Reverse)
    } else
    if (module == StdModule::Std && str_eq(name, "append")) || (module == StdModule::List && str_eq(name, "append")) {
        Some(Builtin::Append)
    } else
    if (module == StdModule::Std && str_eq(name, "contains")) || (module == StdModule::List && str_eq(name, "contains")) {
        Some(Builtin::Contains)
    } else
    if (module == StdModule::Std && str_eq(name, "sumInt")) || (module == StdModule::List && str_eq(name, "sumInt")) {
        Some(Builtin::SumInt)
    } else
    if (module == StdModule::Std && str_eq(name, "sumDecimal")) || (module == StdModule::List && str_eq(name, "sumDecimal")) {
        Some(Builtin::SumDecimal)
    } else
    if (module == StdModule::Std && str_eq(name, "inclusive")) || (module == StdModule::Range && str_eq(name, "inclusive")) {
        Some(Builtin::Inclusive)
    } else
    if (module == StdModule::Std && str_eq(name, "exclusive")) || (module == StdModule::Range && str_eq(name, "exclusive")) {
        Some(Builtin::Exclusive)
    } else
    if (module == StdModule::Std && str_eq(name, "int")) || (module == StdModule::Format && str_eq(name, "int")) {
        Some(Builtin::FmtInt)
    } else
    if (module == StdModule::Std && str_eq(name, "decimal")) || (module == StdModule::Format && str_eq(name, "decimal")) {
        Some(Builtin::FmtDecimal)
    } else
    if (module == StdModule::Std && str_eq(name, "bool")) || (module == StdModule::Format && str_eq(name, "bool")) {
        Some(Builtin::FmtBool)
    } else
    if (module == StdModule::Std && str_eq(name, "intList")) || (module == StdModule::Format && str_eq(name, "intList")) {
        Some(Builtin::IntList)
    } else
    if (module == StdModule::Std && str_eq(name, "decimalList")) || (module == StdModule::Format && str_eq(name, "decimalList")) {
        Some(Builtin::DecimalList)
    } else
    if (module == StdModule::Std && str_eq(name, "textList")) || (module == StdModule::Format && str_eq(name, "textList")) {
        Some(Builtin::TextList)
    } else
    if (module == StdModule::Std && str_eq(name, "trim")) || (module == StdModule::Text && str_eq(name, "trim")) {
        Some(Builtin::Trim)
    } else
    if (module == StdModule::Std && str_eq(name, "lower")) || (module == StdModule::Text && str_eq(name, "lower")) {
        Some(Builtin::Lower)
    } else
    if (module == StdModule::Std && str_eq(name, "upper")) || (module == StdModule::Text && str_eq(name, "upper")) {
        Some(Builtin::Upper)
    } else
    if (module == StdModule::Std && str_eq(name, "concat")) || (module == StdModule::Text && str_eq(name, "concat")) {
        Some(Builtin::Concat)
    } else
    if (module == StdModule::Std && str_eq(name, "textContains")) || (module == StdModule::Text && str_eq(name, "contains")) {
        Some(Builtin::TextContains)
    } else
    if (module == StdModule::Std && str_eq(name, "parseInt")) || (module == StdModule::Text && str_eq(name, "parseInt")) {
        Some(Builtin::ParseInt)
    } else
    if (module == StdModule::Std && str_eq(name, "parseDecimal")) || (module == StdModule::Text && str_eq(name, "parseDecimal")) {
        Some(Builtin::ParseDecimal)
    } else
    if (module == StdModule::Std && str_eq(name, "textLength")) || (module == StdModule::Text && str_eq(name, "length")) {
        Some(Builtin::TextLength)
    } else
    if (module == StdModule::Std && str_eq(name, "toDecimal")) || (module == StdModule::Number && str_eq(name, "toDecimal")) {
        Some(Builtin::ToDecimal)
    } else
    if (module == StdModule::Std && str_eq(name, "floor")) || (module == StdModule::Number && str_eq(name, "floor")) {
        Some(Builtin::Floor)
    } else
    if (module == StdModule::Std && str_eq(name, "round")) || (module == StdModule::Number && str_eq(name, "round")) {
        Some(Builtin::Round)
    } else
    if (module == StdModule::Std && str_eq(name, "absInt")) || (module == StdModule::Number && str_eq(name, "absInt")) {
        Some(Builtin::AbsInt)
    } else
    if (module == StdModule::Std && str_eq(name, "absDecimal")) || (module == StdModule::Number && str_eq(name, "absDecimal")) {
        Some(Builtin::AbsDecimal)
    } else
    if (module == StdModule::Std && str_eq(name, "require")) || (module == StdModule::Validate && str_eq(name, "require")) {
        Some(Builtin::Require)
    } else
    if (module == StdModule::Std && str_eq(name, "requireNotEmpty")) || (module == StdModule::Validate && str_eq(name, "requireNotEmpty")) {
        Some(Builtin::RequireNotEmpty)
    } else {
        None
    }
}

/// Modules that provide `std.empty<T>`.
pub fn has_empty(module: StdModule) -> (b: bool)
    ensures
        b == (module == StdModule::Std || module == StdModule::List),
{
    match module {
        StdModule::Std | StdModule::List => true,
        _ => false,
    }
}

/// Modules that export the `RangeInput` type.
pub fn has_range_input(module: StdModule) -> (b: bool)
    ensures
        b == (module == StdModule::Std || module == StdModule::Range),
{
    match module {
        StdModule::Std | StdModule::Range => true,
        _ => false,
    }
}

/// The name a builtin is declared under in std.tcrf.
pub open spec fn spec_sig_name(b: Builtin) -> Seq<char> {
    match b {
        Builtin::Print => "print"@,
        Builtin::PrintLine => "printLine"@,
        Builtin::ReadText => "readText"@,
        Builtin::Debug => "debug"@,
        Builtin::IsEmpty => "isEmpty"@,
        Builtin::First => "first"@,
        Builtin::Rest => "rest"@,
        Builtin::Prepend => "prepend"@,
        Builtin::Length => "length"@,
        Builtin::Reverse => "reverse"@,
        Builtin::Append => "append"@,
        Builtin::Contains => "contains"@,
        Builtin::SumInt => "sumInt"@,
        Builtin::SumDecimal => "sumDecimal"@,
        Builtin::Inclusive => "inclusive"@,
        Builtin::Exclusive => "exclusive"@,
        Builtin::FmtInt => "int"@,
        Builtin::FmtDecimal => "decimal"@,
        Builtin::FmtBool => "bool"@,
        Builtin::IntList => "intList"@,
        Builtin::DecimalList => "decimalList"@,
        Builtin::TextList => "textList"@,
        Builtin::TextLength => "textLength"@,
        Builtin::Trim => "trim"@,
        Builtin::Lower => "lower"@,
        Builtin::Upper => "upper"@,
        Builtin::Concat => "concat"@,
        Builtin::TextContains => "textContains"@,
        Builtin::ParseInt => "parseInt"@,
        Builtin::ParseDecimal => "parseDecimal"@,
        Builtin::ToDecimal => "toDecimal"@,
        Builtin::Floor => "floor"@,
        Builtin::Round => "round"@,
        Builtin::AbsInt => "absInt"@,
        Builtin::AbsDecimal => "absDecimal"@,
        Builtin::Require => "require"@,
        Builtin::RequireNotEmpty => "requireNotEmpty"@,
    }
}

pub fn sig_name(b: Builtin) -> (s: &'static str)
    ensures
        s@ == spec_sig_name(b),
{
    match b {
            Builtin::Print => "print",
            Builtin::PrintLine => "printLine",
            Builtin::ReadText => "readText",
            Builtin::Debug => "debug",
            Builtin::IsEmpty => "isEmpty",
            Builtin::First => "first",
            Builtin::Rest => "rest",
            Builtin::Prepend => "prepend",
            Builtin::Length => "length",
            Builtin::Reverse => "reverse",
            Builtin::Append => "append",
            Builtin::Contains => "contains",
            Builtin::SumInt => "sumInt",
            Builtin::SumDecimal => "sumDecimal",
            Builtin::Inclusive => "inclusive",
            Builtin::Exclusive => "exclusive",
            Builtin::FmtInt => "int",
            Builtin::FmtDecimal => "decimal",
            Builtin::FmtBool => "bool",
            Builtin::IntList => "intList",
            Builtin::DecimalList => "decimalList",
            Builtin::TextList => "textList",
            Builtin::TextLength => "textLength",
            Builtin::Trim => "trim",
            Builtin::Lower => "lower",
            Builtin::Upper => "upper",
            Builtin::Concat => "concat",
            Builtin::TextContains => "textContains",
            Builtin::ParseInt => "parseInt",
            Builtin::ParseDecimal => "parseDecimal",
            Builtin::ToDecimal => "toDecimal",
            Builtin::Floor => "floor",
            Builtin::Round => "round",
            Builtin::AbsInt => "absInt",
            Builtin::AbsDecimal => "absDecimal",
            Builtin::Require => "require",
            Builtin::RequireNotEmpty => "requireNotEmpty",
    }
}

/// The program's console: the text written so far, and the input lines.
/// A read past the lines known so far marks the console `starved`: the run is
/// then to be repeated once another line is known.
pub struct Io {
    pub output: String,
    /// the lines of standard input known so far, as read (line breaks included)
    pub input: Vec<String>,
    /// the next line to hand out
    pub next: usize,
    /// no line follows `input` (end of input)
    pub at_end: bool,
    /// reading the line after `input` failed, with this reason
    pub read_error: Option<String>,
    pub starved: bool,
}

/// What a step of a run may do to the console: the input lines stay as they
/// are, what was written stays at the front of what is written, and a console
/// that ran out of known input lines stays so.
pub open spec fn io_kept(before: Io, after: Io) -> bool {
    &&& after.input@ == before.input@
    &&& before.output@.len() <= after.output@.len()
    &&& forall|i: int| 0 <= i < before.output@.len() ==> #[trigger] after.output@[i] == before.output@[i]
    &&& (before.starved ==> after.starved)
}

impl Io {
    /// A console with the given input lines and nothing written.
    pub fn new(input: Vec<String>, at_end: bool, read_error: Option<String>) -> (io: Io)
        ensures
            io.output@.len() == 0,
            io.input@ == input@,
            io.next == 0,
            io.at_end == at_end,
            io.read_error == read_error,
            !io.starved,
    {
        Io { output: String::new(), input, next: 0, at_end, read_error, starved: false }
    }
}

fn mismatch() -> (s: String)
    ensures
        s@ == "std.tcrf の宣言と組み込み実装の型が一致しません"@,
{
    String::from_str("std.tcrf の宣言と組み込み実装の型が一致しません")
}

/// The arguments have the shape builtin `b` reads: the list, text, integer,
/// decimal, truth value or range record it takes at each position.
pub open spec fn args_fit(b: Builtin, args: Seq<Value>) -> bool {
    match b {
        Builtin::Print | Builtin::PrintLine | Builtin::TextLength | Builtin::Trim | Builtin::Lower | Builtin::Upper
        | Builtin::ParseInt | Builtin::ParseDecimal => text_of(args, 0) is Some,
        Builtin::Concat | Builtin::TextContains => text_of(args, 0) is Some && text_of(args, 1) is Some,
        Builtin::IsEmpty | Builtin::First | Builtin::Rest | Builtin::Length | Builtin::Reverse | Builtin::SumInt
        | Builtin::SumDecimal | Builtin::IntList | Builtin::DecimalList | Builtin::TextList
        | Builtin::RequireNotEmpty => list_of(args, 0) is Some,
        Builtin::Prepend | Builtin::Contains => args.len() >= 1 && list_of(args, 1) is Some,
        Builtin::Append => list_of(args, 0) is Some && list_of(args, 1) is Some,
        Builtin::FmtInt | Builtin::ToDecimal | Builtin::AbsInt => int_of(args, 0) is Some,
        Builtin::FmtDecimal | Builtin::Floor | Builtin::Round | Builtin::AbsDecimal => dec_of(args, 0) matches Some(d) && d.wf(),
        Builtin::FmtBool | Builtin::Require => bool_of(args, 0) is Some,
        Builtin::Inclusive | Builtin::Exclusive => range_of(args) is Some,
        Builtin::Debug => args.len() >= 1,
        Builtin::ReadText => true,
    }
}

/// The sum of a list of integers, added from the first as `+` adds (never
/// failing, wrapped around to `i64` where it does not fit); `None` for an
/// element that is not an `Int`.
pub open spec fn sum_ints(s: Seq<Value>) -> Option<i64>
    decreases s.len(),
{
    if s.len() == 0 {
        Some(0i64)
    } else {
        match sum_ints(s.drop_last()) {
            Some(acc) => match s.last() {
                Value::Int(n) => Some(acc.wrapping_add(n)),
                _ => None,
            },
            None => None,
        }
    }
}

/// The sum of a list of decimals by `Decimal` addition, from zero.
pub open spec fn sum_decs(s: Seq<Value>) -> Option<Dec>
    decreases s.len(),
{
    if s.len() == 0 {
        Some(Dec { negative: false, magnitude: 0, scale: 0 })
    } else {
        match sum_decs(s.drop_last()) {
            Some(acc) => match s.last() {
                Value::Decimal(d) => if acc.wf() && d.wf() {
                    decimal_add(acc, d)
                } else {
                    None
                },
                _ => None,
            },
            None => None,
        }
    }
}

fn sum_int_list(xs: &Vec<Value>) -> (r: Result<i64, String>)
    ensures
        r matches Ok(n) ==> sum_ints(xs@) == Some(n),
        r is Err ==> sum_ints(xs@) is None,
{
    let mut acc: i64 = 0;
    let mut i: usize = 0;
    proof {
        assert(xs@.take(0) =~= Seq::<Value>::empty());
    }
    while i < xs.len()
        invariant
            i <= xs@.len(),
            sum_ints(xs@.take(i as int)) == Some(acc),
        decreases xs@.len() - i,
    {
        proof {
            assert(xs@.take(i + 1).drop_last() =~= xs@.take(i as int));
        }
        match &xs[i] {
            Value::Int(n) => {
                acc = acc.wrapping_add(*n);
            },
            _ => {
                proof {
                    lemma_sum_ints_stuck(xs@, i as int + 1);
                }
                return Err(mismatch());
            },
        }
        i = i + 1;
    }
    proof {
        assert(xs@.take(xs@.len() as int) =~= xs@);
    }
    Ok(acc)
}

/// Once a prefix has no sum, neither has the whole list.
proof fn lemma_sum_ints_stuck(s: Seq<Value>, k: int)
    requires
        0 <= k <= s.len(),
        sum_ints(s.take(k)) is None,
    ensures
        sum_ints(s) is None,
    decreases s.len() - k,
{
    if k < s.len() {
        assert(s.take(k + 1).drop_last() =~= s.take(k));
        lemma_sum_ints_stuck(s, k + 1);
    } else {
        assert(s.take(k) =~= s);
    }
}

proof fn lemma_sum_decs_stuck(s: Seq<Value>, k: int)
    requires
        0 <= k <= s.len(),
        sum_decs(s.take(k)) is None,
    ensures
        sum_decs(s) is None,
    decreases s.len() - k,
{
    if k < s.len() {
        assert(s.take(k + 1).drop_last() =~= s.take(k));
        lemma_sum_decs_stuck(s, k + 1);
    } else {
        assert(s.take(k) =~= s);
    }
}

fn sum_decimal_list(xs: &Vec<Value>) -> (r: Result<Dec, String>)
    ensures
        r matches Ok(d) ==> sum_decs(xs@) == Some(d),
        r is Err ==> sum_decs(xs@) is None,
{
    let mut acc = Dec { negative: false, magnitude: 0, scale: 0 };
    let mut i: usize = 0;
    proof {
        assert(xs@.take(0) =~= Seq::<Value>::empty());
    }
    while i < xs.len()
        invariant
            i <= xs@.len(),
            sum_decs(xs@.take(i as int)) == Some(acc),
            acc.wf(),
        decreases xs@.len() - i,
    {
        proof {
            assert(xs@.take(i + 1).drop_last() =~= xs@.take(i as int));
        }
        match &xs[i] {
            Value::Decimal(d) => {
                if !d.is_wf() {
                    proof {
                        lemma_sum_decs_stuck(xs@, i as int + 1);
                    }
                    return Err(mismatch());
                }
                match dec_checked_add(acc, *d) {
                    Some(v) => {
                        acc = v;
                    },
                    None => {
                        proof {
                            lemma_sum_decs_stuck(xs@, i as int + 1);
                        }
                        return Err(String::from_str("Decimal の範囲を超えました"));
                    },
                }
            },
            _ => {
                proof {
                    lemma_sum_decs_stuck(xs@, i as int + 1);
                }
                return Err(mismatch());
            },
        }
        i = i + 1;
    }
    proof {
        assert(xs@.take(xs@.len() as int) =~= xs@);
    }
    Ok(acc)
}

/// The integers `first..=end` (nothing when `end < first`).
fn int_range(first: i64, end: i128) -> (r: Vec<Value>)
    requires
        end <= i64::MAX,
    ensures
        end < first ==> r@.len() == 0,
        end >= first ==> r@.len() == end - first + 1,
        forall|k: int| 0 <= k < r@.len() ==> #[trigger] r@[k] == Value::Int((first + k) as i64),
{
    let mut out: Vec<Value> = Vec::new();
    let mut i: i128 = first as i128;
    while i <= end
        invariant
            first <= i,
            end >= first ==> i <= end + 1,
            end < first ==> i == first,
            out@.len() == i - first,
            end <= i64::MAX,
            forall|k: int| 0 <= k < out@.len() ==> #[trigger] out@[k] == Value::Int((first + k) as i64),
        decreases end + 1 - i,
    {
        out.push(Value::Int(i as i64));
        i = i + 1;
    }
    out
}

/// `t` between `open` and `close`.
pub open spec fn enclosed(t: Seq<char>, open: char, close: char) -> Seq<char> {
    seq![open] + t + seq![close]
}

/// How a list is shown: its items joined with ", " between square brackets.
pub open spec fn list_text(items: Seq<Seq<char>>) -> Seq<char> {
    enclosed(joined(items, ", "@), 91u8 as char, 93u8 as char)
}

/// The texts of the elements joined with ", " between square brackets.
fn bracket_list(items: &Vec<String>) -> (s: String)
    ensures
        s@ == list_text(views(items@)),
{
    let inner = join_with(items, ", ");
    quoted_pair(inner.as_str(), 91u8 as char, 93u8 as char)
}

/// The text between two `q` characters.
fn quoted(t: &str, q: char) -> (s: String)
    ensures
        s@ == enclosed(t@, q, q),
{
    quoted_pair(t, q, q)
}

/// The text between `open` and `close`.
fn quoted_pair(t: &str, open: char, q: char) -> (s: String)
    ensures
        s@ == enclosed(t@, open, q),
{
    let mut cs: Vec<char> = Vec::new();
    cs.push(open);
    let inner = chars_of(t);
    let mut i: usize = 0;
    while i < inner.len()
        invariant
            i <= inner@.len(),
            cs@ == seq![open] + inner@.take(i as int),
        decreases inner@.len() - i,
    {
        cs.push(inner[i]);
        proof {
            assert(inner@.take(i + 1) =~= inner@.take(i as int).push(inner@[i as int]));
        }
        i = i + 1;
    }
    cs.push(q);
    proof {
        assert(inner@.take(inner@.len() as int) =~= inner@);
    }
    let s = crate::text::string_from_chars(cs.as_slice());
    proof {
        assert(s@ =~= enclosed(t@, open, q));
    }
    s
}

/// How `std.debug` shows a value: numbers and booleans as written, texts
/// and characters quoted, lists in square brackets, records with their type
/// name and fields, ADT values by constructor and payload.
pub open spec fn debug_text(env: &Env, v: Value) -> Seq<char>
    decreases v,
{
    match v {
        Value::Int(n) => crate::text_fmt::int_text(n as int),
        Value::Decimal(d) => if d.wf() {
            crate::decimal::dec_display(d)
        } else {
            "?"@
        },
        Value::Text(t) => enclosed(t@, 34u8 as char, 34u8 as char),
        Value::Char(c) => enclosed(seq![c], 39u8 as char, 39u8 as char),
        Value::Bool(b) => if b {
            "true"@
        } else {
            "false"@
        },
        Value::Void => "Void"@,
        Value::List(xs) => list_text(debug_items(env, xs@)),
        Value::Record(rec) => if rec.type_id < env.types@.len() {
            let def = env.types@[rec.type_id as int];
            match def.kind {
                TypeDefKind::Record(fields) => {
                    let n = if fields@.len() < rec.fields@.len() {
                        fields@.len()
                    } else {
                        rec.fields@.len()
                    };
                    def.name@ + " "@ + enclosed(
                        " "@ + joined(field_items(env, fields@, rec.fields@, n as int), ", "@) + " "@,
                        123u8 as char,
                        125u8 as char,
                    )
                },
                _ => def.name@ + " "@ + enclosed(" ... "@, 123u8 as char, 125u8 as char),
            }
        } else {
            enclosed(" ... "@, 123u8 as char, 125u8 as char)
        },
        Value::Adt { type_id, ctor, payload } => if type_id < env.types@.len() {
            let def = env.types@[type_id as int];
            match def.kind {
                TypeDefKind::Adt(ctors) => {
                    let name = if ctor < ctors@.len() {
                        ctors@[ctor as int].name@
                    } else {
                        def.name@
                    };
                    match payload {
                        Some(p) => name + " "@ + debug_text(env, *p),
                        None => name,
                    }
                },
                _ => def.name@,
            }
        } else {
            "?"@
        },
    }
}

/// How `std.debug` shows each value of a list.
pub open spec fn debug_items(env: &Env, xs: Seq<Value>) -> Seq<Seq<char>>
    decreases xs,
{
    Seq::new(
        xs.len(),
        |i: int|
            if 0 <= i < xs.len() {
                debug_text(env, xs[i])
            } else {
                Seq::empty()
            },
    )
}

/// How `std.debug` shows the first `n` fields of a record: `name = value`.
pub open spec fn field_items(env: &Env, fields: Seq<crate::types::FieldDef>, vals: Seq<Value>, n: int) -> Seq<Seq<char>>
    decreases vals,
{
    Seq::new(
        n as nat,
        |i: int|
            if 0 <= i < vals.len() && i < fields.len() {
                fields[i].name@ + " = "@ + debug_text(env, vals[i])
            } else {
                Seq::empty()
            },
    )
}

/// How `std.debug` shows a value.
#[verifier::loop_isolation(false)]
pub fn debug_value(v: &Value, env: &Env) -> (s: String)
    ensures
        s@ == debug_text(env, *v),
    decreases v,
{
    match v {
        Value::Int(n) => i64_text(*n),
        Value::Decimal(d) => if d.is_wf() {
            decimal_text(*d)
        } else {
            String::from_str("?")
        },
        Value::Text(t) => quoted(t.as_str(), 34u8 as char),
        Value::Char(c) => {
            let mut cs: Vec<char> = Vec::new();
            cs.push(*c);
            let inner = crate::text::string_from_chars(cs.as_slice());
            proof {
                assert(inner@ =~= seq![*c]);
            }
            quoted(inner.as_str(), 39u8 as char)
        },
        Value::Bool(b) => if *b {
            String::from_str("true")
        } else {
            String::from_str("false")
        },
        Value::Void => String::from_str("Void"),
        Value::List(xs) => {
            let mut items: Vec<String> = Vec::new();
            let mut i: usize = 0;
            while i < xs.len()
                invariant
                    i <= xs@.len(),
                    items@.len() == i,
                    forall|j: int| 0 <= j < i ==> (#[trigger] items@[j])@ == debug_text(env, xs@[j]),
                decreases xs@.len() - i,
            {
                proof {
                    assert(decreases_to!(xs => xs@));
                    assert(decreases_to!(xs@ => xs@[i as int]));
                }
                items.push(debug_value(&xs[i], env));
                i = i + 1;
            }
            proof {
                assert(views(items@) =~= debug_items(env, xs@));
            }
            let shown = bracket_list(&items);
            proof {
                assert(shown@ == debug_text(env, *v));
            }
            shown
        },
        Value::Record(rec) => {
            let def = match env.get_type(rec.type_id) {
                Some(def) => def,
                None => {
                    return quoted_pair(" ... ", 123u8 as char, 125u8 as char);
                },
            };
            let fields = match &def.kind {
                TypeDefKind::Record(fields) => fields,
                _ => {
                    let body = quoted_pair(" ... ", 123u8 as char, 125u8 as char);
                    return cat3(def.name.as_str(), " ", body.as_str());
                },
            };
            let mut items: Vec<String> = Vec::new();
            let mut i: usize = 0;
            while i < fields.len() && i < rec.fields.len()
                invariant
                    i <= fields@.len(),
                    i <= rec.fields@.len(),
                    items@.len() == i,
                    forall|j: int| 0 <= j < i ==> (#[trigger] items@[j])@ == fields@[j].name@ + " = "@ + debug_text(env, rec.fields@[j]),
                decreases fields@.len() - i,
            {
                proof {
                    assert(decreases_to!(rec => rec.fields));
                    assert(decreases_to!(rec.fields => rec.fields@));
                    assert(decreases_to!(rec.fields@ => rec.fields@[i as int]));
                }
                let shown = debug_value(&rec.fields[i], env);
                items.push(cat3(fields[i].name.as_str(), " = ", shown.as_str()));
                i = i + 1;
            }
            proof {
                let n = if fields@.len() < rec.fields@.len() {
                    fields@.len()
                } else {
                    rec.fields@.len()
                };
                assert(views(items@) =~= field_items(env, fields@, rec.fields@, n as int));
            }
            let inner = join_with(&items, ", ");
            let spaced = cat3(" ", inner.as_str(), " ");
            let body = quoted_pair(spaced.as_str(), 123u8 as char, 125u8 as char);
            let shown = cat3(def.name.as_str(), " ", body.as_str());
            proof {
                assert(shown@ == debug_text(env, *v));
            }
            shown
        },
        Value::Adt { type_id, ctor, payload } => {
            let def = match env.get_type(*type_id) {
                Some(def) => def,
                None => {
                    return String::from_str("?");
                },
            };
            let name = match &def.kind {
                TypeDefKind::Adt(ctors) => if *ctor < ctors.len() {
                    ctors[*ctor].name.clone()
                } else {
                    def.name.clone()
                },
                _ => {
                    return def.name.clone();
                },
            };
            match payload {
                Some(p) => {
                    let shown = debug_value(&**p, env);
                    cat3(name.as_str(), " ", shown.as_str())
                },
                None => name,
            }
        },
    }
}

/// `std.decimal`'s form of a decimal: without trailing zeros of the fraction.
pub fn format_decimal(d: Dec) -> (s: String)
    requires
        d.wf(),
    ensures
        s@ == crate::decimal::dec_display(crate::decimal::normalized(d)),
{
    decimal_text(dec_normalize(d))
}

/// The list an argument holds.
fn list_arg(args: &Vec<Value>, i: usize) -> (r: Result<&Vec<Value>, String>)
    ensures
        r matches Ok(xs) ==> i < args@.len() && args@[i as int] == Value::List(*xs),
        r is Err ==> !(i < args@.len() && args@[i as int] is List),
        r matches Err(m) ==> m@ == "std.tcrf の宣言と組み込み実装の型が一致しません"@,
{
    if i < args.len() {
        match &args[i] {
            Value::List(xs) => Ok(xs),
            _ => Err(mismatch()),
        }
    } else {
        Err(mismatch())
    }
}

/// The text an argument holds.
fn text_arg(args: &Vec<Value>, i: usize) -> (r: Result<&String, String>)
    ensures
        r matches Ok(t) ==> i < args@.len() && args@[i as int] == Value::Text(*t),
        r is Err ==> !(i < args@.len() && args@[i as int] is Text),
        r matches Err(m) ==> m@ == "std.tcrf の宣言と組み込み実装の型が一致しません"@,
{
    if i < args.len() {
        match &args[i] {
            Value::Text(t) => Ok(t),
            _ => Err(mismatch()),
        }
    } else {
        Err(mismatch())
    }
}

/// The integer an argument holds.
fn int_arg(args: &Vec<Value>, i: usize) -> (r: Result<i64, String>)
    ensures
        r matches Ok(n) ==> i < args@.len() && args@[i as int] == Value::Int(n),
        r is Err ==> !(i < args@.len() && args@[i as int] is Int),
        r matches Err(m) ==> m@ == "std.tcrf の宣言と組み込み実装の型が一致しません"@,
{
    if i < args.len() {
        match &args[i] {
            Value::Int(n) => Ok(*n),
            _ => Err(mismatch()),
        }
    } else {
        Err(mismatch())
    }
}

/// The decimal an argument holds, when its parts are well formed.
fn decimal_arg(args: &Vec<Value>, i: usize) -> (r: Result<Dec, String>)
    ensures
        r matches Ok(d) ==> i < args@.len() && args@[i as int] == Value::Decimal(d) && d.wf(),
        r is Err ==> !(i < args@.len() && (args@[i as int] matches Value::Decimal(d) && d.wf())),
        r matches Err(m) ==> m@ == "std.tcrf の宣言と組み込み実装の型が一致しません"@,
{
    if i < args.len() {
        match &args[i] {
            Value::Decimal(d) => if d.is_wf() {
                Ok(*d)
            } else {
                Err(mismatch())
            },
            _ => Err(mismatch()),
        }
    } else {
        Err(mismatch())
    }
}

/// The boolean an argument holds.
fn bool_arg(args: &Vec<Value>, i: usize) -> (r: Result<bool, String>)
    ensures
        r matches Ok(b) ==> i < args@.len() && args@[i as int] == Value::Bool(b),
        r is Err ==> !(i < args@.len() && args@[i as int] is Bool),
        r matches Err(m) ==> m@ == "std.tcrf の宣言と組み込み実装の型が一致しません"@,
{
    if i < args.len() {
        match &args[i] {
            Value::Bool(b) => Ok(*b),
            _ => Err(mismatch()),
        }
    } else {
        Err(mismatch())
    }
}

/// The text of the first argument, when it is one.
pub open spec fn text_of(args: Seq<Value>, i: int) -> Option<Seq<char>> {
    if 0 <= i < args.len() {
        match args[i] {
            Value::Text(t) => Some(t@),
            _ => None,
        }
    } else {
        None
    }
}

/// The list an argument holds.
pub open spec fn list_of(args: Seq<Value>, i: int) -> Option<Seq<Value>> {
    if 0 <= i < args.len() {
        match args[i] {
            Value::List(xs) => Some(xs@),
            _ => None,
        }
    } else {
        None
    }
}

/// The integer an argument holds.
pub open spec fn int_of(args: Seq<Value>, i: int) -> Option<i64> {
    if 0 <= i < args.len() {
        match args[i] {
            Value::Int(n) => Some(n),
            _ => None,
        }
    } else {
        None
    }
}

/// The decimal of an argument, when it is one.
pub open spec fn dec_of(args: Seq<Value>, i: int) -> Option<Dec> {
    if 0 <= i < args.len() {
        match args[i] {
            Value::Decimal(d) => Some(d),
            _ => None,
        }
    } else {
        None
    }
}

/// The boolean of an argument, when it is one.
pub open spec fn bool_of(args: Seq<Value>, i: int) -> Option<bool> {
    if 0 <= i < args.len() {
        match args[i] {
            Value::Bool(b) => Some(b),
            _ => None,
        }
    } else {
        None
    }
}

/// `first` and `last` of a range record (`std.RangeInput`).
pub open spec fn range_of(args: Seq<Value>) -> Option<(i64, i64)> {
    if args.len() >= 1 {
        match args[0] {
            Value::Record(rec) => if rec.fields@.len() == 2 {
                match (rec.fields@[0], rec.fields@[1]) {
                    (Value::Int(f), Value::Int(l)) => Some((f, l)),
                    _ => None,
                }
            } else {
                None
            },
            _ => None,
        }
    } else {
        None
    }
}

/// A decimal value with well-formed parts.
pub open spec fn wf_decimal(v: Value) -> bool {
    v matches Value::Decimal(d) && d.wf()
}

/// How `std.format.intList` shows an element.
pub open spec fn shown_int(v: Value) -> Seq<char> {
    match v {
        Value::Int(n) => crate::text_fmt::int_text(n as int),
        _ => Seq::empty(),
    }
}

/// How `std.format.decimalList` shows an element.
pub open spec fn shown_decimal(v: Value) -> Seq<char> {
    match v {
        Value::Decimal(d) => crate::decimal::dec_display(crate::decimal::normalized(d)),
        _ => Seq::empty(),
    }
}

/// How `std.format.textList` shows an element: between double quotes.
pub open spec fn shown_quoted(v: Value) -> Seq<char> {
    match v {
        Value::Text(t) => enclosed(t@, 34u8 as char, 34u8 as char),
        _ => Seq::empty(),
    }
}

/// The integers `first`, `first + 1`, ... as values, `n` of them.
pub open spec fn ints_from(ys: Seq<Value>, first: i64, n: int) -> bool {
    &&& ys.len() == n
    &&& forall|k: int| 0 <= k < n ==> #[trigger] ys[k] == Value::Int((first + k) as i64)
}

/// Reads the next input line for `std.readText`, its line break dropped.
fn read_line(io: &mut Io) -> (r: Result<Value, String>)
    ensures
        final(io).output == old(io).output,
        final(io).input@ == old(io).input@,
        old(io).next < old(io).input@.len() ==> final(io).next == old(io).next + 1 && (r matches Ok(
            Value::Text(t),
        ) && t@ == crate::text::without_line_end(old(io).input@[old(io).next as int]@)),
        old(io).next >= old(io).input@.len() ==> r is Err && final(io).next == old(io).next,
        old(io).next >= old(io).input@.len() && old(io).read_error is None && !old(io).at_end
            ==> final(io).starved,
        io_kept(*old(io), *final(io)),
        r is Ok ==> final(io).starved == old(io).starved,
{
    if io.next < io.input.len() {
        let line = strip_line_end(io.input[io.next].as_str());
        io.next = io.next + 1;
        return Ok(Value::Text(line));
    }
    if let Some(e) = &io.read_error {
        return Err(cat2("標準入力の読み取りに失敗しました: ", e.as_str()));
    }
    if io.at_end {
        return Err(String::from_str("標準入力が終端に達しました"));
    }
    // no line known yet: the run is repeated once one is
    io.starved = true;
    Err(String::new())
}

/// Element by element the same values.
pub open spec fn same_values(xs: Seq<Value>, ys: Seq<Value>) -> bool {
    &&& xs.len() == ys.len()
    &&& forall|i: int| 0 <= i < xs.len() ==> #[trigger] same_value(xs[i], ys[i])
}

/// The list holding `x`, then the elements of `xs`.
fn prepended(x: &Value, xs: &Vec<Value>) -> (r: Vec<Value>)
    ensures
        same_values(seq![*x] + xs@, r@),
{
    let mut out: Vec<Value> = Vec::new();
    out.push(x.dup());
    let mut i: usize = 0;
    while i < xs.len()
        invariant
            i <= xs@.len(),
            out@.len() == i + 1,
            same_value(*x, out@[0]),
            forall|j: int| 0 <= j < i ==> #[trigger] same_value(xs@[j], out@[j + 1]),
        decreases xs@.len() - i,
    {
        out.push(xs[i].dup());
        i = i + 1;
    }
    proof {
        let whole = seq![*x] + xs@;
        assert forall|j: int| 0 <= j < whole.len() implies #[trigger] same_value(whole[j], out@[j]) by {
            if j > 0 {
                assert(whole[j] == xs@[j - 1]);
                assert(same_value(xs@[j - 1], out@[(j - 1) + 1]));
            } else {
                assert(whole[j] == *x);
            }
        }
    }
    out
}

/// Some element of `xs` equals `x` (by `==`).
pub open spec fn has_equal(xs: Seq<Value>, x: Value) -> bool {
    exists|i: int| 0 <= i < xs.len() && crate::value::spec_equals(#[trigger] xs[i], x)
}

/// Does an element of `xs` equal `x`.
fn any_equals(x: &Value, xs: &Vec<Value>) -> (b: bool)
    ensures
        b == has_equal(xs@, *x),
{
    let mut i: usize = 0;
    while i < xs.len()
        invariant
            i <= xs@.len(),
            forall|j: int| 0 <= j < i ==> !crate::value::spec_equals(#[trigger] xs@[j], *x),
        decreases xs@.len() - i,
    {
        if xs[i].equals(x) {
            return true;
        }
        i = i + 1;
    }
    false
}

/// Runs a builtin on its arguments. `Err` is a failure of the running
/// program, with a message for the user; a value of a shape the builtin does
/// not take (possible only when std.tcrf was edited) is such a failure too.
#[verifier::loop_isolation(false)]
pub fn eval(b: Builtin, args: &Vec<Value>, env: &Env, io: &mut Io) -> (r: Result<Value, String>)
    ensures
        final(io).input@ == old(io).input@,
        io_kept(*old(io), *final(io)),
        r is Ok ==> final(io).starved == old(io).starved,
        (b is Print || b is PrintLine) && text_of(args@, 0) is Some ==> r == Ok::<Value, String>(Value::Void),
        b is Print && text_of(args@, 0) is Some ==> final(io).output@ == old(io).output@ + text_of(args@, 0).unwrap(),
        b is PrintLine && text_of(args@, 0) is Some ==> final(io).output@ == old(io).output@ + text_of(args@, 0).unwrap() + seq!['\n'],
        !(b is Print || b is PrintLine || b is Debug) ==> final(io).output == old(io).output,
        !(b is ReadText) ==> final(io).next == old(io).next,
        b is IsEmpty && list_of(args@, 0) is Some ==> r == Ok::<Value, String>(Value::Bool(list_of(args@, 0).unwrap().len() == 0)),
        b is Length && list_of(args@, 0) is Some ==> r == Ok::<Value, String>(Value::Int(list_of(args@, 0).unwrap().len() as i64)),
        (b is First || b is Rest) && list_of(args@, 0) is Some ==> (r is Err <==> list_of(args@, 0).unwrap().len() == 0),
        b is First && r is Ok ==> (list_of(args@, 0) matches Some(xs) && same_value(xs[0], r->Ok_0)),
        b is Rest && r is Ok ==> (list_of(args@, 0) matches Some(xs) && r->Ok_0 matches Value::List(ys) && same_values(xs.drop_first(), ys@)),
        b is Prepend && args@.len() >= 1 && list_of(args@, 1) is Some ==> (r matches Ok(Value::List(ys)) && same_values(seq![args@[0]] + list_of(args@, 1).unwrap(), ys@)),
        b is Append && list_of(args@, 0) is Some && list_of(args@, 1) is Some ==> (r matches Ok(Value::List(ys)) && same_values(list_of(args@, 0).unwrap() + list_of(args@, 1).unwrap(), ys@)),
        b is Reverse && list_of(args@, 0) is Some ==> (r matches Ok(Value::List(ys)) && same_values(list_of(args@, 0).unwrap().reverse(), ys@)),
        b is Contains && args@.len() >= 1 && list_of(args@, 1) is Some ==> r == Ok::<Value, String>(Value::Bool(has_equal(list_of(args@, 1).unwrap(), args@[0]))),
        b is SumInt && list_of(args@, 0) is Some ==> ((r is Ok <==> sum_ints(list_of(args@, 0).unwrap()) is Some) && (r matches Ok(v) ==> v == Value::Int(sum_ints(list_of(args@, 0).unwrap()).unwrap()))),
        b is SumDecimal && list_of(args@, 0) is Some ==> ((r is Ok <==> sum_decs(list_of(args@, 0).unwrap()) is Some) && (r matches Ok(v) ==> v == Value::Decimal(sum_decs(list_of(args@, 0).unwrap()).unwrap()))),
        b is FmtInt && int_of(args@, 0) is Some ==> (r matches Ok(Value::Text(t)) && t@ == crate::text_fmt::int_text(int_of(args@, 0).unwrap() as int)),
        b is TextLength && text_of(args@, 0) is Some ==> r == Ok::<Value, String>(Value::Int(text_of(args@, 0).unwrap().len() as i64)),
        b is Concat && text_of(args@, 0) is Some && text_of(args@, 1) is Some ==> (r matches Ok(Value::Text(t)) && t@ == text_of(args@, 0).unwrap() + text_of(args@, 1).unwrap()),
        b is TextContains && text_of(args@, 0) is Some && text_of(args@, 1) is Some ==> r == Ok::<Value, String>(Value::Bool(crate::text::occurs(text_of(args@, 0).unwrap(), text_of(args@, 1).unwrap()))),
        b is Trim && text_of(args@, 0) is Some ==> (r matches Ok(Value::Text(t)) && t@ == crate::text::trimmed(text_of(args@, 0).unwrap())),
        b is ParseInt && text_of(args@, 0) is Some ==> ((r is Ok <==> crate::text::spec_parse_int(crate::text::trimmed(text_of(args@, 0).unwrap())) is Some) && (r matches Ok(v) ==> v == Value::Int(crate::text::spec_parse_int(crate::text::trimmed(text_of(args@, 0).unwrap())).unwrap()))),
        b is ToDecimal && int_of(args@, 0) is Some ==> (r matches Ok(Value::Decimal(d)) && crate::decimal::signed(d) == int_of(args@, 0).unwrap() && d.scale == 0),
        b is AbsInt && int_of(args@, 0) is Some ==> r == Ok::<Value, String>(Value::Int(if int_of(args@, 0).unwrap() < 0 { 0i64.wrapping_sub(int_of(args@, 0).unwrap()) } else { int_of(args@, 0).unwrap() })),
        b is Require && args@.len() >= 1 && args@[0] is Bool ==> ((r is Ok <==> args@[0] == Value::Bool(true)) && (r matches Ok(v) ==> v == Value::Void)),
        b is RequireNotEmpty && list_of(args@, 0) is Some ==> (r is Err <==> list_of(args@, 0).unwrap().len() == 0),
        b is RequireNotEmpty && list_of(args@, 0) is Some && list_of(args@, 0).unwrap().len() > 0 ==> (r matches Ok(v)
            && crate::value::same_value(args@[0], v)),
        b is ReadText && old(io).next < old(io).input@.len() ==> (r matches Ok(Value::Text(t)) && t@ == crate::text::without_line_end(old(io).input@[old(io).next as int]@) && final(io).next == old(io).next + 1),
        b is ReadText && old(io).next >= old(io).input@.len() ==> r is Err,
        b is Debug ==> (r is Ok <==> args@.len() >= 1) && (r is Ok ==> r == Ok::<Value, String>(Value::Void)),
        range_of(args@) matches Some((f, l)) ==> ((b is Inclusive || b is Exclusive) ==> (r is Ok <==> f <= l)),
        b is Inclusive && r is Ok ==> (range_of(args@) matches Some((f, l)) && r->Ok_0 matches Value::List(ys) && ints_from(ys@, f, l - f + 1)),
        b is Exclusive && r is Ok ==> (range_of(args@) matches Some((f, l)) && r->Ok_0 matches Value::List(ys) && ints_from(ys@, f, l - f)),
        dec_of(args@, 0) matches Some(d) ==> (b is FmtDecimal && d.wf() ==> (r matches Ok(Value::Text(t)) && t@ == crate::decimal::dec_display(crate::decimal::normalized(d)))),
        bool_of(args@, 0) matches Some(x) ==> (b is FmtBool ==> (r matches Ok(Value::Text(t)) && t@ == (if x { "true"@ } else { "false"@ }))),
        list_of(args@, 0) matches Some(xs) ==> (b is IntList ==> (r is Ok <==> forall|i: int| 0 <= i < xs.len() ==> (#[trigger] xs[i]) is Int)),
        b is IntList && r is Ok ==> (list_of(args@, 0) matches Some(xs) && r->Ok_0 matches Value::Text(t) && t@ == list_text(xs.map_values(|v: Value| shown_int(v)))),
        list_of(args@, 0) matches Some(xs) ==> (b is DecimalList ==> (r is Ok <==> forall|i: int| 0 <= i < xs.len() ==> wf_decimal(#[trigger] xs[i]))),
        b is DecimalList && r is Ok ==> (list_of(args@, 0) matches Some(xs) && r->Ok_0 matches Value::Text(t) && t@ == list_text(xs.map_values(|v: Value| shown_decimal(v)))),
        list_of(args@, 0) matches Some(xs) ==> (b is TextList ==> (r is Ok <==> forall|i: int| 0 <= i < xs.len() ==> (#[trigger] xs[i]) is Text)),
        b is TextList && r is Ok ==> (list_of(args@, 0) matches Some(xs) && r->Ok_0 matches Value::Text(t) && t@ == list_text(xs.map_values(|v: Value| shown_quoted(v)))),
        b is Lower && text_of(args@, 0) is Some ==> (r matches Ok(Value::Text(t)) && t@ == crate::text::lowercased(text_of(args@, 0).unwrap())),
        b is Upper && text_of(args@, 0) is Some ==> (r matches Ok(Value::Text(t)) && t@ == crate::text::uppercased(text_of(args@, 0).unwrap())),
        b is ParseDecimal && text_of(args@, 0) is Some ==> ((r is Ok <==> crate::decimal::decimal_parse(crate::text::trimmed(text_of(args@, 0).unwrap())) is Some) && (r matches Ok(v) ==> v == Value::Decimal(crate::decimal::decimal_parse(crate::text::trimmed(text_of(args@, 0).unwrap())).unwrap()))),
        dec_of(args@, 0) matches Some(d) ==> (b is Floor && d.wf() ==> r == Ok::<Value, String>(Value::Int(match fit_i64(dec_floor(d)) { Some(n) => n, None => i64::MAX }))),
        dec_of(args@, 0) matches Some(d) ==> (b is Round && d.wf() ==> r == Ok::<Value, String>(Value::Int(match fit_i64(dec_round_half_away(d)) { Some(n) => n, None => i64::MAX }))),
        dec_of(args@, 0) matches Some(d) ==> (b is AbsDecimal && d.wf() ==> r == Ok::<Value, String>(Value::Decimal(Dec { negative: false, ..d }))),
        b is Debug && args@.len() >= 1 ==> final(io).output@ == old(io).output@ + debug_text(env, args@[0]) + seq!['\n'],
        !args_fit(b, args@) ==> (r matches Err(m) && m@ == "std.tcrf の宣言と組み込み実装の型が一致しません"@) && final(io).output == old(io).output,
{
    match b {
        Builtin::Print => {
            let t = text_arg(args, 0)?;
            io.output.append(t.as_str());
            Ok(Value::Void)
        },
        Builtin::PrintLine => {
            let t = text_arg(args, 0)?;
            io.output.append(t.as_str());
            io.output.append("\n");
            proof {
                reveal_strlit("\n");
            }
            Ok(Value::Void)
        },
        Builtin::ReadText => read_line(io),
        Builtin::Debug => {
            if args.len() == 0 {
                return Err(mismatch());
            }
            let shown = debug_value(&args[0], env);
            io.output.append(shown.as_str());
            io.output.append("\n");
            proof {
                reveal_strlit("\n");
            }
            Ok(Value::Void)
        },
        Builtin::IsEmpty => {
            let xs = list_arg(args, 0)?;
            Ok(Value::Bool(xs.len() == 0))
        },
        Builtin::First => {
            let xs = list_arg(args, 0)?;
            if xs.len() == 0 {
                Err(String::from_str("空リストの先頭要素は取れません"))
            } else {
                Ok(xs[0].dup())
            }
        },
        Builtin::Rest => {
            let xs = list_arg(args, 0)?;
            if xs.len() == 0 {
                Err(String::from_str("空リストの残り要素は取れません"))
            } else {
                let mut out: Vec<Value> = Vec::new();
                let mut i: usize = 1;
                while i < xs.len()
                    invariant
                        1 <= i <= xs@.len(),
                        out@.len() == i - 1,
                        forall|j: int| 1 <= j < i ==> #[trigger] same_value(xs@[j], out@[j - 1]),
                    decreases xs@.len() - i,
                {
                    out.push(xs[i].dup());
                    i = i + 1;
                }
                proof {
                    assert forall|j: int| 0 <= j < xs@.drop_first().len() implies #[trigger] same_value(xs@.drop_first()[j], out@[j]) by {
                        assert(same_value(xs@[j + 1], out@[(j + 1) - 1]));
                    }
                }
                Ok(Value::List(out))
            }
        },
        Builtin::Prepend => {
            let xs = list_arg(args, 1)?;
            if args.len() == 0 {
                return Err(mismatch());
            }
            Ok(Value::List(prepended(&args[0], xs)))
        },
        Builtin::Length => {
            let xs = list_arg(args, 0)?;
            Ok(Value::Int(xs.len() as i64))
        },
        Builtin::Reverse => {
            let xs = list_arg(args, 0)?;
            let mut out: Vec<Value> = Vec::new();
            let mut i: usize = xs.len();
            while i > 0
                invariant
                    i <= xs@.len(),
                    out@.len() == xs@.len() - i,
                    forall|j: int| 0 <= j < out@.len() ==> #[trigger] same_value(xs@[xs@.len() - 1 - j], out@[j]),
                decreases i,
            {
                out.push(xs[i - 1].dup());
                i = i - 1;
            }
            proof {
                assert forall|j: int| 0 <= j < xs@.reverse().len() implies #[trigger] same_value(xs@.reverse()[j], out@[j]) by {
                    assert(same_value(xs@[xs@.len() - 1 - j], out@[j]));
                }
            }
            Ok(Value::List(out))
        },
        Builtin::Append => {
            let l = list_arg(args, 0)?;
            let r = list_arg(args, 1)?;
            let mut out = dup_all(l);
            let mut i: usize = 0;
            while i < r.len()
                invariant
                    i <= r@.len(),
                    out@.len() == l@.len() + i,
                    forall|j: int| 0 <= j < l@.len() ==> #[trigger] same_value(l@[j], out@[j]),
                    forall|j: int| 0 <= j < i ==> #[trigger] same_value(r@[j], out@[l@.len() + j]),
                decreases r@.len() - i,
            {
                out.push(r[i].dup());
                i = i + 1;
            }
            proof {
                let whole = l@ + r@;
                assert forall|j: int| 0 <= j < whole.len() implies #[trigger] same_value(whole[j], out@[j]) by {
                    if j >= l@.len() {
                        assert(same_value(r@[j - l@.len()], out@[l@.len() + (j - l@.len())]));
                    }
                }
            }
            Ok(Value::List(out))
        },
        Builtin::Contains => {
            let xs = list_arg(args, 1)?;
            if args.len() == 0 {
                return Err(mismatch());
            }
            Ok(Value::Bool(any_equals(&args[0], xs)))
        },
        Builtin::SumInt => {
            let xs = list_arg(args, 0)?;
            let n = sum_int_list(xs)?;
            Ok(Value::Int(n))
        },
        Builtin::SumDecimal => {
            let xs = list_arg(args, 0)?;
            let d = sum_decimal_list(xs)?;
            Ok(Value::Decimal(d))
        },
        Builtin::Inclusive | Builtin::Exclusive => {
            if args.len() == 0 {
                return Err(mismatch());
            }
            let (first, last) = match &args[0] {
                Value::Record(rec) => {
                    if rec.fields.len() != 2 {
                        return Err(mismatch());
                    }
                    match (&rec.fields[0], &rec.fields[1]) {
                        (Value::Int(f), Value::Int(l)) => (*f, *l),
                        _ => {
                            return Err(mismatch());
                        },
                    }
                },
                _ => {
                    return Err(mismatch());
                },
            };
            if first > last {
                let a = i64_text(first);
                let c = i64_text(last);
                let mut m = cat4("first (", a.as_str(), ") > last (", c.as_str());
                m.append(") の範囲は作れません");
                return Err(m);
            }
            let end: i128 = if b == Builtin::Inclusive {
                last as i128
            } else {
                last as i128 - 1
            };
            Ok(Value::List(int_range(first, end)))
        },
        Builtin::FmtInt => {
            let n = int_arg(args, 0)?;
            Ok(Value::Text(i64_text(n)))
        },
        Builtin::FmtDecimal => {
            let d = decimal_arg(args, 0)?;
            Ok(Value::Text(format_decimal(d)))
        },
        Builtin::FmtBool => {
            let v = bool_arg(args, 0)?;
            Ok(Value::text(if v {
                "true"
            } else {
                "false"
            }))
        },
        Builtin::IntList => {
            let xs = list_arg(args, 0)?;
            let mut items: Vec<String> = Vec::new();
            let mut i: usize = 0;
            while i < xs.len()
                invariant
                    i <= xs@.len(),
                    items@.len() == i,
                    forall|j: int| 0 <= j < i ==> (#[trigger] xs@[j]) is Int,
                    forall|j: int| 0 <= j < i ==> #[trigger] items@[j]@ == shown_int(xs@[j]),
                decreases xs@.len() - i,
            {
                match &xs[i] {
                    Value::Int(n) => items.push(i64_text(*n)),
                    _ => {
                        return Err(mismatch());
                    },
                }
                i = i + 1;
            }
            proof {
                assert(views(items@) =~= xs@.map_values(|v: Value| shown_int(v)));
            }
            Ok(Value::Text(bracket_list(&items)))
        },
        Builtin::DecimalList => {
            let xs = list_arg(args, 0)?;
            let mut items: Vec<String> = Vec::new();
            let mut i: usize = 0;
            while i < xs.len()
                invariant
                    i <= xs@.len(),
                    items@.len() == i,
                    forall|j: int| 0 <= j < i ==> wf_decimal(#[trigger] xs@[j]),
                    forall|j: int| 0 <= j < i ==> #[trigger] items@[j]@ == shown_decimal(xs@[j]),
                decreases xs@.len() - i,
            {
                match &xs[i] {
                    Value::Decimal(d) => {
                        if !d.is_wf() {
                            return Err(mismatch());
                        }
                        items.push(format_decimal(*d));
                    },
                    _ => {
                        return Err(mismatch());
                    },
                }
                i = i + 1;
            }
            proof {
                assert(views(items@) =~= xs@.map_values(|v: Value| shown_decimal(v)));
            }
            Ok(Value::Text(bracket_list(&items)))
        },
        Builtin::TextList => {
            let xs = list_arg(args, 0)?;
            let mut items: Vec<String> = Vec::new();
            let mut i: usize = 0;
            while i < xs.len()
                invariant
                    i <= xs@.len(),
                    items@.len() == i,
                    forall|j: int| 0 <= j < i ==> (#[trigger] xs@[j]) is Text,
                    forall|j: int| 0 <= j < i ==> #[trigger] items@[j]@ == shown_quoted(xs@[j]),
                decreases xs@.len() - i,
            {
                match &xs[i] {
                    Value::Text(t) => items.push(quoted(t.as_str(), 34u8 as char)),
                    _ => {
                        return Err(mismatch());
                    },
                }
                i = i + 1;
            }
            proof {
                assert(views(items@) =~= xs@.map_values(|v: Value| shown_quoted(v)));
            }
            Ok(Value::Text(bracket_list(&items)))
        },
        Builtin::TextLength => {
            let t = text_arg(args, 0)?;
            let cs = chars_of(t.as_str());
            Ok(Value::Int(cs.len() as i64))
        },
        Builtin::Trim => {
            let t = text_arg(args, 0)?;
            Ok(Value::Text(text_trim(t.as_str())))
        },
        Builtin::Lower => {
            let t = text_arg(args, 0)?;
            Ok(Value::Text(text_lower(t.as_str())))
        },
        Builtin::Upper => {
            let t = text_arg(args, 0)?;
            Ok(Value::Text(text_upper(t.as_str())))
        },
        Builtin::Concat => {
            let a = text_arg(args, 0)?;
            let c = text_arg(args, 1)?;
            Ok(Value::Text(cat2(a.as_str(), c.as_str())))
        },
        Builtin::TextContains => {
            let a = text_arg(args, 0)?;
            let c = text_arg(args, 1)?;
            Ok(Value::Bool(text_contains(a.as_str(), c.as_str())))
        },
        Builtin::ParseInt => {
            let t = text_arg(args, 0)?;
            let trimmed = text_trim(t.as_str());
            match parse_int(trimmed.as_str()) {
                Some(n) => Ok(Value::Int(n)),
                None => {
                    let q = quoted(t.as_str(), 34u8 as char);
                    Err(cat2("Int として解釈できません: ", q.as_str()))
                },
            }
        },
        Builtin::ParseDecimal => {
            let t = text_arg(args, 0)?;
            let trimmed = text_trim(t.as_str());
            match parse_decimal(trimmed.as_str()) {
                Some(d) => Ok(Value::Decimal(d)),
                None => {
                    let q = quoted(t.as_str(), 34u8 as char);
                    Err(cat2("Decimal として解釈できません: ", q.as_str()))
                },
            }
        },
        Builtin::ToDecimal => {
            let n = int_arg(args, 0)?;
            Ok(Value::Decimal(dec_from_i64(n)))
        },
        Builtin::Floor => {
            let d = decimal_arg(args, 0)?;
            Ok(Value::Int(match dec_floor_i64(d) {
                Some(n) => n,
                None => i64::MAX,
            }))
        },
        Builtin::Round => {
            let d = decimal_arg(args, 0)?;
            Ok(Value::Int(match dec_round_i64(d) {
                Some(n) => n,
                None => i64::MAX,
            }))
        },
        Builtin::AbsInt => {
            let n = int_arg(args, 0)?;
            if n < 0 {
                Ok(Value::Int(0i64.wrapping_sub(n)))
            } else {
                Ok(Value::Int(n))
            }
        },
        Builtin::AbsDecimal => {
            let d = decimal_arg(args, 0)?;
            Ok(Value::Decimal(dec_abs(d)))
        },
        Builtin::Require => {
            if bool_arg(args, 0)? {
                Ok(Value::Void)
            } else {
                Err(String::from_str("require の条件が false でした"))
            }
        },
        Builtin::RequireNotEmpty => {
            let xs = list_arg(args, 0)?;
            if xs.len() == 0 {
                Err(String::from_str("リストが空です"))
            } else {
                Ok(args[0].dup())
            }
        },
    }
}

} // verus!
