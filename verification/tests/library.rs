//! Tests of the library's parts on concrete values: the laws, the edge cases
//! and the error of each kind.
use tcrf::ast::BinOp;
use tcrf::builtins::{self, Builtin, Io};
use tcrf::decimal::{dec_abs, dec_from_i64, dec_neg, dec_normalize, Dec};
use tcrf::diagnostics::{codes, Code, Diagnostics};
use tcrf::eval::{apply_binary, compare, dec_arith, int_arith, IntFault, OpFault};
use tcrf::loader;
use tcrf::resolver;
use tcrf::span::{SourceFile, Span};
use tcrf::stdsig::{check, SigType, StdSig};
use tcrf::text::{parse_int, strip_line_end, text_contains, text_less};
use tcrf::text_fmt::i64_text;
use tcrf::types::{Env, Type};
use tcrf::value::{RecordValue, Value};

/// The decimal a text reads as (through `std.parseDecimal`).
fn dec(s: &str) -> Dec {
    match run_builtin(Builtin::ParseDecimal, vec![Value::text(s)]) {
        Ok(Value::Decimal(d)) => d,
        other => panic!("not a decimal: {:?}", other),
    }
}

/// A decimal as written, trailing zeros kept (how `std.debug` shows it).
fn decimal_text(d: Dec) -> String {
    builtins::debug_value(&Value::Decimal(d), &empty_env())
}

fn decimal_less(a: Dec, b: Dec) -> bool {
    compare(&Value::Decimal(a), &Value::Decimal(b)) == Some(-1)
}

fn decimal_equal(a: Dec, b: Dec) -> bool {
    compare(&Value::Decimal(a), &Value::Decimal(b)) == Some(0)
}

fn int_result(b: Builtin, d: Dec) -> i64 {
    match run_builtin(b, vec![Value::Decimal(d)]) {
        Ok(Value::Int(n)) => n,
        other => panic!("not an integer: {:?}", other),
    }
}

fn empty_env() -> Env {
    let mut diags = Diagnostics::new();
    let loaded = loader::load_str("t.tcrf", "F main\n  Void\n", &mut diags);
    resolver::resolve(&loaded, &mut diags)
}

fn run_builtin(b: Builtin, args: Vec<Value>) -> Result<Value, String> {
    let env = empty_env();
    let mut io = Io::new(Vec::new(), true, None);
    builtins::eval(b, &args, &env, &mut io)
}

fn ints(xs: &[i64]) -> Value {
    Value::List(xs.iter().map(|n| Value::Int(*n)).collect())
}

fn text_of(v: Value) -> String {
    match v {
        Value::Text(t) => t,
        other => panic!("not a text: {:?}", other),
    }
}

// ---- integers ----

#[test]
fn int_arith_rounds_toward_zero() {
    assert_eq!(int_arith(BinOp::Div, -7, 2), Ok(-3));
    assert_eq!(int_arith(BinOp::Rem, -7, 2), Ok(-1));
    assert_eq!(int_arith(BinOp::Div, 7, -2), Ok(-3));
    assert_eq!(int_arith(BinOp::Rem, 7, -2), Ok(1));
    assert_eq!(int_arith(BinOp::Add, 2, 3), Ok(5));
    assert_eq!(int_arith(BinOp::Sub, 2, 3), Ok(-1));
    assert_eq!(int_arith(BinOp::Mul, -4, 3), Ok(-12));
}

#[test]
fn int_arith_faults() {
    assert_eq!(int_arith(BinOp::Div, 1, 0), Err(IntFault::DivByZero));
    assert_eq!(int_arith(BinOp::Rem, 1, 0), Err(IntFault::DivByZero));
    assert_eq!(int_arith(BinOp::Div, i64::MIN, -1), Err(IntFault::Overflow));
    assert_eq!(int_arith(BinOp::Rem, i64::MIN, -1), Ok(0));
    assert_eq!(int_arith(BinOp::Add, i64::MAX, 1), Ok(i64::MIN));
    assert_eq!(int_arith(BinOp::Sub, i64::MIN, 1), Ok(i64::MAX));
    assert_eq!(int_arith(BinOp::Mul, i64::MAX, 2), Ok(-2));
    assert_eq!(int_arith(BinOp::Div, 7, -2), Ok(-3));
    assert_eq!(int_arith(BinOp::Rem, -7, 2), Ok(-1));
}

#[test]
fn div_rem_make_up_the_dividend() {
    for (a, b) in [(17i64, 5i64), (-17, 5), (17, -5), (-17, -5), (0, 3)] {
        let q = int_arith(BinOp::Div, a, b).unwrap();
        let r = int_arith(BinOp::Rem, a, b).unwrap();
        assert_eq!(a, b * q + r);
        assert!(r.abs() < b.abs());
    }
}

#[test]
fn parse_int_as_str_parse() {
    assert_eq!(parse_int("42"), Some(42));
    assert_eq!(parse_int("+42"), Some(42));
    assert_eq!(parse_int("-0"), Some(0));
    assert_eq!(parse_int("-9223372036854775808"), Some(i64::MIN));
    assert_eq!(parse_int("9223372036854775808"), None);
    assert_eq!(parse_int(" 7"), None);
    assert_eq!(parse_int(""), None);
    assert_eq!(parse_int("-"), None);
    assert_eq!(parse_int("12a"), None);
}

#[test]
fn parse_int_reads_back_int_text() {
    for n in [0i64, 7, -7, i64::MAX, i64::MIN, 1000] {
        assert_eq!(parse_int(&i64_text(n)), Some(n));
    }
}

// ---- texts ----

#[test]
fn text_order_and_search() {
    assert!(text_less("abc", "abd"));
    assert!(text_less("ab", "abc"));
    assert!(!text_less("abc", "abc"));
    assert!(!text_less("b", "a"));
    assert!(text_less("あ", "い"));
    assert!(text_contains("hello world", "o w"));
    assert!(text_contains("abc", ""));
    assert!(!text_contains("abc", "abcd"));
    assert!(!text_contains("abc", "ac"));
}

#[test]
fn line_ends_and_trim() {
    assert_eq!(strip_line_end("line\r\n"), "line");
    assert_eq!(strip_line_end("line\n\n"), "line");
    assert_eq!(strip_line_end("line"), "line");
    let text = |b: Builtin, s: &str| text_of(run_builtin(b, vec![Value::text(s)]).unwrap());
    assert_eq!(text(Builtin::Trim, "  a b \t"), "a b");
    assert_eq!(text(Builtin::Lower, "AbC"), "abc");
    assert_eq!(text(Builtin::Upper, "AbC"), "ABC");
}

// ---- decimals ----

#[test]
fn decimal_parts_and_text() {
    assert_eq!(dec("1.50"), Dec { negative: false, magnitude: 150, scale: 2 });
    assert_eq!(decimal_text(dec("-1.50")), "-1.50");
    assert_eq!(decimal_text(dec("0.001")), "0.001");
    assert_eq!(decimal_text(dec_normalize(dec("1.500"))), "1.5");
    assert_eq!(decimal_text(dec_normalize(dec("-0.00"))), "0");
    assert_eq!(builtins::format_decimal(dec("1100.00")), "1100");
    assert!(run_builtin(Builtin::ParseDecimal, vec![Value::text("abc")]).is_err());
}

#[test]
fn decimal_arithmetic() {
    assert_eq!(decimal_text(dec_arith(BinOp::Add, dec("1.5"), dec("2.25")).unwrap()), "3.75");
    assert_eq!(decimal_text(dec_arith(BinOp::Sub, dec("1.5"), dec("2.25")).unwrap()), "-0.75");
    assert_eq!(decimal_text(dec_arith(BinOp::Mul, dec("1000.0"), dec("0.10")).unwrap()), "100.000");
    assert_eq!(decimal_text(dec_arith(BinOp::Div, dec("1"), dec("4")).unwrap()), "0.25");
    assert!(dec_arith(BinOp::Div, dec("1"), dec("0.0")).is_none());
    assert_eq!(decimal_text(dec_neg(dec("2.5"))), "-2.5");
    assert_eq!(decimal_text(dec_abs(dec("-2.5"))), "2.5");
    assert_eq!(decimal_text(dec_from_i64(-5)), "-5");
}

#[test]
fn decimal_order_and_rounding() {
    assert!(decimal_less(dec("1.5"), dec("1.75")));
    assert!(!decimal_less(dec("1.50"), dec("1.5")));
    assert!(decimal_equal(dec("1.0"), dec("1.00")));
    assert!(decimal_equal(dec("0"), dec("-0.0")));
    assert_eq!(int_result(Builtin::Floor, dec("-1.5")), -2);
    assert_eq!(int_result(Builtin::Floor, dec("1.5")), 1);
    assert_eq!(int_result(Builtin::Round, dec("2.5")), 3);
    assert_eq!(int_result(Builtin::Round, dec("-2.5")), -3);
    assert_eq!(int_result(Builtin::Round, dec("2.4")), 2);
    assert_eq!(int_result(Builtin::Floor, dec("99999999999999999999")), i64::MAX);
}

// ---- operators on values ----

#[test]
fn binary_operators_on_values() {
    let t = |s: &str| Value::text(s);
    assert!(matches!(apply_binary(BinOp::Eq, &Value::Decimal(dec("1.0")), &Value::Decimal(dec("1.00"))), Ok(Value::Bool(true))));
    assert!(matches!(apply_binary(BinOp::Lt, &t("a"), &t("b")), Ok(Value::Bool(true))));
    assert!(matches!(apply_binary(BinOp::Ge, &Value::Char('b'), &Value::Char('a')), Ok(Value::Bool(true))));
    assert!(matches!(apply_binary(BinOp::Ne, &Value::Int(1), &Value::Int(1)), Ok(Value::Bool(false))));
    assert_eq!(apply_binary(BinOp::Div, &Value::Int(1), &Value::Int(0)).unwrap_err(), OpFault::DivByZero);
    assert!(matches!(apply_binary(BinOp::Add, &Value::Int(i64::MAX), &Value::Int(1)), Ok(Value::Int(i64::MIN))));
    assert_eq!(apply_binary(BinOp::Div, &Value::Int(i64::MIN), &Value::Int(-1)).unwrap_err(), OpFault::IntOverflow);
    assert_eq!(
        apply_binary(BinOp::Div, &Value::Decimal(dec("1")), &Value::Decimal(dec("0"))).unwrap_err(),
        OpFault::DivByZero
    );
    let big = dec("79228162514264337593543950335");
    assert_eq!(
        apply_binary(BinOp::Add, &Value::Decimal(big), &Value::Decimal(big)).unwrap_err(),
        OpFault::DecimalOverflow
    );
    assert_eq!(apply_binary(BinOp::Add, &Value::Int(1), &t("x")).unwrap_err(), OpFault::Mismatch);
}

#[test]
fn compare_is_antisymmetric() {
    let pairs = [
        (Value::Int(1), Value::Int(2)),
        (Value::text("b"), Value::text("a")),
        (Value::Decimal(dec("1.0")), Value::Decimal(dec("1.00"))),
        (Value::Char('x'), Value::Char('y')),
    ];
    for (a, b) in pairs.iter() {
        let c = compare(a, b).unwrap();
        assert_eq!(compare(b, a), Some(-c));
        assert_eq!(c == 0, a.equals(b));
    }
    assert_eq!(compare(&Value::Int(1), &Value::text("a")), None);
}

// ---- builtins ----

#[test]
fn list_builtins() {
    assert!(matches!(run_builtin(Builtin::IsEmpty, vec![ints(&[])]), Ok(Value::Bool(true))));
    assert!(matches!(run_builtin(Builtin::Length, vec![ints(&[4, 5])]), Ok(Value::Int(2))));
    assert!(matches!(run_builtin(Builtin::First, vec![ints(&[4, 5])]), Ok(Value::Int(4))));
    assert_eq!(run_builtin(Builtin::First, vec![ints(&[])]).unwrap_err(), "空リストの先頭要素は取れません");
    assert!(run_builtin(Builtin::Rest, vec![ints(&[])]).is_err());
    let shown = |v: Value| text_of(run_builtin(Builtin::IntList, vec![v]).unwrap());
    assert_eq!(shown(run_builtin(Builtin::Rest, vec![ints(&[4, 5, 6])]).unwrap()), "[5, 6]");
    assert_eq!(shown(run_builtin(Builtin::Prepend, vec![Value::Int(1), ints(&[2])]).unwrap()), "[1, 2]");
    assert_eq!(shown(run_builtin(Builtin::Append, vec![ints(&[1]), ints(&[2, 3])]).unwrap()), "[1, 2, 3]");
    assert_eq!(shown(run_builtin(Builtin::Reverse, vec![ints(&[1, 2, 3])]).unwrap()), "[3, 2, 1]");
    assert_eq!(shown(ints(&[])), "[]");
    assert!(matches!(run_builtin(Builtin::Contains, vec![Value::Int(2), ints(&[1, 2])]), Ok(Value::Bool(true))));
    assert!(matches!(run_builtin(Builtin::Contains, vec![Value::Int(3), ints(&[1, 2])]), Ok(Value::Bool(false))));
    assert!(run_builtin(Builtin::RequireNotEmpty, vec![ints(&[])]).is_err());
    assert!(run_builtin(Builtin::RequireNotEmpty, vec![ints(&[1])]).is_ok());
    assert_eq!(shown(run_builtin(Builtin::RequireNotEmpty, vec![ints(&[4, 5])]).unwrap()), "[4, 5]");
}

#[test]
fn sums_and_ranges() {
    assert!(matches!(run_builtin(Builtin::SumInt, vec![ints(&[1, 2, 3])]), Ok(Value::Int(6))));
    assert!(matches!(run_builtin(Builtin::SumInt, vec![ints(&[i64::MAX, 1])]), Ok(Value::Int(i64::MIN))));
    let ds = Value::List(vec![Value::Decimal(dec("1.5")), Value::Decimal(dec("2.25"))]);
    match run_builtin(Builtin::SumDecimal, vec![ds]).unwrap() {
        Value::Decimal(d) => assert_eq!(decimal_text(d), "3.75"),
        other => panic!("{:?}", other),
    }
    let range = |a: i64, b: i64| Value::Record(RecordValue { type_id: 0, fields: vec![Value::Int(a), Value::Int(b)] });
    let shown = |v: Value| text_of(run_builtin(Builtin::IntList, vec![v]).unwrap());
    assert_eq!(shown(run_builtin(Builtin::Inclusive, vec![range(2, 5)]).unwrap()), "[2, 3, 4, 5]");
    assert_eq!(shown(run_builtin(Builtin::Exclusive, vec![range(2, 5)]).unwrap()), "[2, 3, 4]");
    assert_eq!(shown(run_builtin(Builtin::Exclusive, vec![range(3, 3)]).unwrap()), "[]");
    assert_eq!(
        run_builtin(Builtin::Inclusive, vec![range(5, 2)]).unwrap_err(),
        "first (5) > last (2) の範囲は作れません"
    );
}

#[test]
fn text_and_number_builtins() {
    let t = |s: &str| Value::text(s);
    assert_eq!(text_of(run_builtin(Builtin::FmtInt, vec![Value::Int(-12)]).unwrap()), "-12");
    assert_eq!(text_of(run_builtin(Builtin::FmtDecimal, vec![Value::Decimal(dec("2.500"))]).unwrap()), "2.5");
    assert_eq!(text_of(run_builtin(Builtin::FmtBool, vec![Value::Bool(true)]).unwrap()), "true");
    assert_eq!(
        text_of(run_builtin(Builtin::DecimalList, vec![Value::List(vec![Value::Decimal(dec("1.10"))])]).unwrap()),
        "[1.1]"
    );
    assert_eq!(text_of(run_builtin(Builtin::TextList, vec![Value::List(vec![t("a"), t("b")])]).unwrap()), "[\"a\", \"b\"]");
    assert!(matches!(run_builtin(Builtin::TextLength, vec![t("あいう")]), Ok(Value::Int(3))));
    assert_eq!(text_of(run_builtin(Builtin::Concat, vec![t("ab"), t("cd")]).unwrap()), "abcd");
    assert!(matches!(run_builtin(Builtin::TextContains, vec![t("abcd"), t("bc")]), Ok(Value::Bool(true))));
    assert_eq!(text_of(run_builtin(Builtin::Trim, vec![t(" x ")]).unwrap()), "x");
    assert!(matches!(run_builtin(Builtin::ParseInt, vec![t(" 42 ")]), Ok(Value::Int(42))));
    assert_eq!(run_builtin(Builtin::ParseInt, vec![t("4x")]).unwrap_err(), "Int として解釈できません: \"4x\"");
    assert!(run_builtin(Builtin::ParseDecimal, vec![t("x")]).is_err());
    match run_builtin(Builtin::ParseDecimal, vec![t(" 1.25 ")]).unwrap() {
        Value::Decimal(d) => assert_eq!(decimal_text(d), "1.25"),
        other => panic!("{:?}", other),
    }
    match run_builtin(Builtin::ToDecimal, vec![Value::Int(7)]).unwrap() {
        Value::Decimal(d) => assert_eq!(decimal_text(d), "7"),
        other => panic!("{:?}", other),
    }
    assert!(matches!(run_builtin(Builtin::Floor, vec![Value::Decimal(dec("-0.5"))]), Ok(Value::Int(-1))));
    assert!(matches!(run_builtin(Builtin::Round, vec![Value::Decimal(dec("0.5"))]), Ok(Value::Int(1))));
    assert!(matches!(run_builtin(Builtin::AbsInt, vec![Value::Int(-3)]), Ok(Value::Int(3))));
    assert!(matches!(run_builtin(Builtin::AbsInt, vec![Value::Int(i64::MIN)]), Ok(Value::Int(i64::MIN))));
    match run_builtin(Builtin::AbsDecimal, vec![Value::Decimal(dec("-0.5"))]).unwrap() {
        Value::Decimal(d) => assert_eq!(decimal_text(d), "0.5"),
        other => panic!("{:?}", other),
    }
    assert!(matches!(run_builtin(Builtin::Require, vec![Value::Bool(true)]), Ok(Value::Void)));
    assert_eq!(run_builtin(Builtin::Require, vec![Value::Bool(false)]).unwrap_err(), "require の条件が false でした");
    assert!(run_builtin(Builtin::FmtInt, vec![t("not an int")]).is_err());
}

#[test]
fn console_builtins() {
    let env = empty_env();
    let mut io = Io::new(vec!["first line\r\n".to_string()], false, None);
    builtins::eval(Builtin::Print, &vec![Value::text("a")], &env, &mut io).unwrap();
    builtins::eval(Builtin::PrintLine, &vec![Value::text("b")], &env, &mut io).unwrap();
    builtins::eval(Builtin::Debug, &vec![ints(&[1, 2])], &env, &mut io).unwrap();
    assert_eq!(io.output, "ab\n[1, 2]\n");
    let line = builtins::eval(Builtin::ReadText, &vec![], &env, &mut io).unwrap();
    assert_eq!(text_of(line), "first line");
    assert!(!io.starved);
    assert!(builtins::eval(Builtin::ReadText, &vec![], &env, &mut io).is_err());
    assert!(io.starved);
    let mut done = Io::new(Vec::new(), true, None);
    assert_eq!(
        builtins::eval(Builtin::ReadText, &vec![], &env, &mut done).unwrap_err(),
        "標準入力が終端に達しました"
    );
    let mut broken = Io::new(Vec::new(), false, Some("boom".to_string()));
    assert_eq!(
        builtins::eval(Builtin::ReadText, &vec![], &env, &mut broken).unwrap_err(),
        "標準入力の読み取りに失敗しました: boom"
    );
}

#[test]
fn debug_shows_records_and_constructors() {
    let mut diags = Diagnostics::new();
    let src = "T P {\n  a Int\n  b Text\n}\n\nT G\n  | Ok Int\n  | Ng\n\nF main\n  Void\n";
    let loaded = loader::load_str("t.tcrf", src, &mut diags);
    let env = resolver::resolve(&loaded, &mut diags);
    assert!(diags.is_empty());
    let p = env.modules[0].type_id("P").unwrap();
    let rec = Value::Record(RecordValue { type_id: p, fields: vec![Value::Int(1), Value::text("x")] });
    assert_eq!(builtins::debug_value(&rec, &env), "P { a = 1, b = \"x\" }");
    let (g, ok) = env.modules[0].ctor("Ok").unwrap();
    let v = Value::Adt { type_id: g, ctor: ok, payload: Some(Box::new(Value::Int(3))) };
    assert_eq!(builtins::debug_value(&v, &env), "Ok 3");
    assert_eq!(builtins::debug_value(&Value::Char('c'), &env), "'c'");
}

// ---- diagnostics ----

#[test]
fn diagnostics_render_in_file_and_offset_order() {
    let file = SourceFile::new("t.tcrf", "abc\ndef\n");
    let mut d = Diagnostics::new();
    assert!(d.is_empty());
    d.emit(codes::TYPE_MISMATCH, Span::new(4, 5), "second".to_string());
    d.emit_with_hint(codes::LEX_INVALID_CHAR, Span::new(0, 1), "first".to_string(), "hint".to_string());
    assert_eq!(d.len(), 2);
    let out = d.render(&file);
    let a = out.find("first").unwrap();
    let b = out.find("second").unwrap();
    assert!(a < b, "{}", out);
    assert!(out.starts_with("t.tcrf:1:1: error[E101]: first"), "{}", out);
    assert!(out.contains("t.tcrf:2:1: error[E401]: second"), "{}", out);
    assert!(out.contains("hint"), "{}", out);
    assert_eq!(Code::E401.as_str(), "E401");
}

// ---- loading and names ----

#[test]
fn unknown_std_module_is_not_found() {
    let mut d = Diagnostics::new();
    loader::load_str("t.tcrf", "import std.mylib\n\nF main\n  Void\n", &mut d);
    assert!(d.items.iter().any(|i| i.code == codes::RESOLVE_MODULE_NOT_FOUND && i.message.contains("std.mylib")));
}

#[test]
fn user_module_in_memory_is_not_found() {
    let mut d = Diagnostics::new();
    loader::load_str("t.tcrf", "import mylib\n\nF main\n  Void\n", &mut d);
    let hit = d.items.iter().find(|i| i.code == codes::RESOLVE_MODULE_NOT_FOUND).unwrap();
    assert!(hit.hint.as_ref().unwrap().contains("./mylib.tcrf"));
}

#[test]
fn duplicate_and_builtin_type_names_are_reported() {
    let mut d = Diagnostics::new();
    let loaded = loader::load_str("t.tcrf", "T Int [Text]\nT A [Int]\nT A [Text]\n\nF main\n  Void\n", &mut d);
    let env = resolver::resolve(&loaded, &mut d);
    assert_eq!(d.items.iter().filter(|i| i.code == codes::RESOLVE_DUPLICATE).count(), 2);
    assert_eq!(env.modules[0].type_names.len(), 1);
    let a = env.modules[0].type_id("A").unwrap();
    assert!(matches!(&env.types[a].kind, tcrf::types::TypeDefKind::Usage(Type::Int)));
}

#[test]
fn range_input_comes_from_std() {
    let mut d = Diagnostics::new();
    let loaded = loader::load_str("t.tcrf", "import std\n\nT Window [std.RangeInput]\n\nF main\n  Void\n", &mut d);
    let env = resolver::resolve(&loaded, &mut d);
    assert!(d.is_empty(), "{:?}", d.items);
    let r = env.modules[0].type_id("Window").unwrap();
    let std_range = env.std_type("RangeInput").unwrap();
    assert!(matches!(&env.types[r].kind, tcrf::types::TypeDefKind::Usage(Type::Named(id)) if *id == std_range));
}

#[test]
fn main_with_a_signature_other_than_void_is_reported() {
    let mut d = Diagnostics::new();
    let loaded = loader::load_str("t.tcrf", "F main\n  Int > Void\n\n  std.printLine\n", &mut d);
    let _ = resolver::resolve(&loaded, &mut d);
    assert!(d.items.iter().any(|i| i.code == codes::TYPE_MAIN));
}

#[test]
fn rendered_diagnostic_has_place_line_caret_and_hint() {
    let file = SourceFile::new("t.tcrf", "ab\n\tcd\n");
    let mut d = Diagnostics::new();
    d.emit_with_hint(codes::TYPE_MISMATCH, Span::new(4, 5), "msg".to_string(), "h".to_string());
    assert_eq!(d.render(&file), "t.tcrf:2:2: error[E401]: msg\n  \tcd\n  \t^\n  hint: h\n");
}

#[test]
fn tokens_come_in_source_order() {
    let src = "import std\n\nF main\n  Void\n\nR f\n  Int > Int\n\n  x * 2\n";
    let file = SourceFile::new("t.tcrf", src);
    let mut d = Diagnostics::new();
    let toks = tcrf::lexer::lex(&file, &mut d);
    assert!(d.is_empty());
    for w in toks.windows(2) {
        assert!(w[0].span.start <= w[1].span.start);
    }
    for t in &toks {
        assert!(t.span.start <= t.span.end && t.span.end as usize <= src.len());
        let written = &src[t.span.start as usize..t.span.end as usize];
        match &t.kind {
            tcrf::token::TokenKind::UpperIdent(w) | tcrf::token::TokenKind::LowerIdent(w) => assert_eq!(written, w),
            tcrf::token::TokenKind::IntLit(v) => assert_eq!(written, v.to_string()),
            _ => {},
        }
    }
}

#[test]
fn type_and_token_names_in_messages() {
    let env = empty_env();
    assert_eq!(env.display(&Type::List(Box::new(Type::Int))), "List<Int>");
    assert_eq!(env.display(&Type::Named(7)), "?");
    assert_eq!(tcrf::token::TokenKind::KwAs.describe(), "`as`");
    assert_eq!(tcrf::token::TokenKind::IntLit(-3).describe(), "整数 `-3`");
    assert_eq!(tcrf::text_fmt::last_segment("a.b.c"), "c");
    assert_eq!(tcrf::text_fmt::last_segment("abc"), "abc");
}

#[test]
fn list_builtins_copy_elements_deeply() {
    let nested = Value::List(vec![ints(&[1, 2]), ints(&[3])]);
    let first = run_builtin(Builtin::First, vec![nested]).unwrap();
    let shown = text_of(run_builtin(Builtin::IntList, vec![first]).unwrap());
    assert_eq!(shown, "[1, 2]");
    let texts = Value::List(vec![Value::text("x"), Value::text("y")]);
    match run_builtin(Builtin::Reverse, vec![texts]).unwrap() {
        Value::List(ys) => {
            assert_eq!(text_of(ys[0].dup()), "y");
            assert_eq!(text_of(ys[1].dup()), "x");
        },
        other => panic!("{:?}", other),
    }
}

#[test]
fn std_signature_matching_binds_type_variables() {
    let env = empty_env();
    let var = |v: &str| SigType::Var(v.to_string());
    let contains = StdSig {
        name: "contains".to_string(),
        inputs: vec![var("A"), SigType::List(Box::new(var("A")))],
        output: SigType::Concrete(Type::Bool),
        can_fail: false,
    };
    let list = |t: Type| Type::List(Box::new(t));
    assert_eq!(check(&contains, Some(Builtin::Contains), &[Type::Int, list(Type::Int)], &env).unwrap(), (Type::Bool, false));
    assert!(check(&contains, Some(Builtin::Contains), &[Type::Int, list(Type::Text)], &env).is_err());
    // `==` is not defined on lists, so `contains` refuses a list of lists
    assert!(check(&contains, Some(Builtin::Contains), &[list(Type::Int), list(list(Type::Int))], &env).is_err());
    assert!(check(&contains, None, &[list(Type::Int), list(list(Type::Int))], &env).is_ok());
    let unbound = StdSig {
        name: "make".to_string(),
        inputs: vec![SigType::Concrete(Type::Int)],
        output: var("B"),
        can_fail: true,
    };
    assert_eq!(check(&unbound, None, &[Type::Int], &env).unwrap_err(), "出力型の型変数が入力から決まりません");
}

#[test]
fn loading_orders_modules_dependencies_first() {
    let mut d = Diagnostics::new();
    let loaded = loader::load_str("t.tcrf", "import std\n\nF main\n  Void\n", &mut d);
    assert!(d.is_empty());
    assert_eq!(loaded.order, vec![0]);
    let s = loaded.std_unit.unwrap();
    assert!(loaded.units[s].is_std);
    assert!(!loaded.units[0].is_std);
}

#[test]
fn exit_codes_follow_the_table() {
    assert_eq!(tcrf::session::exit_code(3, false, false), 2);
    assert_eq!(tcrf::session::exit_code(1, true, true), 2);
    assert_eq!(tcrf::session::exit_code(0, true, false), 0);
    assert_eq!(tcrf::session::exit_code(0, false, true), 1);
    assert_eq!(tcrf::session::exit_code(0, false, false), 0);
}

#[test]
fn replayed_runs_show_only_new_output() {
    assert_eq!(tcrf::session::fresh_output("ab\ncd", 3), ("cd".to_string(), 5));
    assert_eq!(tcrf::session::fresh_output("あいう", 1), ("いう".to_string(), 3));
    assert_eq!(tcrf::session::fresh_output("ab", 2), (String::new(), 2));
    assert_eq!(tcrf::session::fresh_output("ab", 5), (String::new(), 5));
}

#[test]
fn the_entry_unit_holds_the_file_as_given() {
    let mut d = Diagnostics::new();
    let src = "import std\nimport other\n\nF main\n  Void\n";
    let loaded = loader::load_str("entry.tcrf", src, &mut d);
    assert_eq!(loaded.units[0].file.name, "entry.tcrf");
    assert_eq!(loaded.units[0].file.src, src);
    for &u in &loaded.order {
        let unit = &loaded.units[u];
        assert_eq!(unit.import_targets.len(), unit.program.imports.len());
    }
    assert_eq!(loaded.units[0].import_targets.len(), 2);
    assert!(loaded.units[0].import_targets[1].is_none());
    assert!(d.items.iter().any(|i| i.code == Code::E304));
}

#[test]
fn a_failing_rule_called_without_error_mark_is_reported() {
    let mut d = Diagnostics::new();
    let src = "R div x\n  Int > Int ! Error\n\n  x / 0\n\nR calls x\n  Int > Int\n\n  div x\n\nF main\n  Void\n";
    let loaded = loader::load_str("t.tcrf", src, &mut d);
    let env = resolver::resolve(&loaded, &mut d);
    tcrf::typecheck::typecheck(&loaded, &env, &mut d);
    assert!(d.items.iter().any(|i| i.code == Code::E410));
}

#[test]
fn an_import_qualifier_taken_twice_is_reported() {
    let mut d = Diagnostics::new();
    let loaded = loader::load_str("t.tcrf", "import std\nimport std\n\nF main\n  Void\n", &mut d);
    let _env = resolver::resolve(&loaded, &mut d);
    assert!(d.items.iter().any(|i| i.code == Code::E303));
}

#[test]
fn trim_removes_unicode_white_space_at_both_ends_only() {
    let out = run_builtin(Builtin::Trim, vec![Value::text("\u{3000}\u{a0}\n a\u{2003}b \u{85}\r")]).unwrap();
    let Value::Text(t) = out else { panic!("Text 以外: {:?}", out) };
    assert_eq!(t, "a\u{2003}b");
    let kept = run_builtin(Builtin::Trim, vec![Value::text("\u{200b}x")]).unwrap();
    let Value::Text(k) = kept else { panic!("Text 以外: {:?}", kept) };
    assert_eq!(k, "\u{200b}x");
}

#[test]
fn the_entry_module_has_the_empty_name() {
    let mut d = Diagnostics::new();
    let loaded = loader::load_str("t.tcrf", "F main\n  Void\n", &mut d);
    assert_eq!(loaded.units[0].name, "");
}

#[test]
fn a_program_without_main_is_reported_at_the_start() {
    let mut d = Diagnostics::new();
    let loaded = loader::load_str("t.tcrf", "R f x\n  Int > Int\n\n  x\n", &mut d);
    let _env = resolver::resolve(&loaded, &mut d);
    let e = d.items.iter().find(|i| i.code == Code::E409).expect("E409");
    assert_eq!((e.span.start, e.span.end), (0, 0));
    assert_eq!(e.file, 0);
}
