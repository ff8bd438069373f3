use tcrf::decimal::{dec_normalize, Dec};
use tcrf::diagnostics::Diagnostics;
use tcrf::eval::{run_rule, RuntimeError};
use tcrf::loader::{self, Loaded};
use tcrf::resolver;
use tcrf::typecheck;
use tcrf::types::{Env, ENTRY};
use tcrf::value::Value;

fn with_env<R>(src: &str, f: impl FnOnce(&Loaded, &Env) -> R) -> R {
    let mut diags = Diagnostics::new();
    let loaded = loader::load_str("t.tcrf", src, &mut diags);
    let env = resolver::resolve(&loaded, &mut diags);
    typecheck::typecheck(&loaded, &env, &mut diags);
    assert!(
        diags.is_empty(),
        "diagnostics:\n{}",
        diags.render(&loaded.units[0].file)
    );
    f(&loaded, &env)
}

fn call(loaded: &Loaded, env: &Env, rule: &str, arg: Value) -> Result<Value, RuntimeError> {
    run_rule(loaded, env, rule, arg)
}

#[test]
fn tax_calculation_runs() {
    let src = r#"T Price [Decimal]
T TaxRate [Decimal]
T TaxAmount [Decimal]
T TotalAmount [Decimal]

C standardTaxRate = TaxRate 0.10

R calculateTotal price
  Price > TotalAmount

  tax : TaxAmount =
    price * standardTaxRate

  total : TotalAmount =
    price + tax

  total

F main
  Void
"#;
    with_env(src, |loaded, env| {
        let v = call(
            loaded,
            env,
            "calculateTotal",
            Value::Decimal(Dec { negative: false, magnitude: 10000, scale: 1 }),
        )
        .unwrap();
        let Value::Decimal(d) = v else { panic!("Decimal 以外: {:?}", v) };
        assert_eq!(
            dec_normalize(d),
            Dec { negative: false, magnitude: 1100, scale: 0 }
        );
    });
}

#[test]
fn division_by_zero_is_error() {
    let src = r#"R div x
  Int > Int ! Error

  x / 0

F main
  Void
"#;
    with_env(src, |loaded, env| {
        let e = call(loaded, env, "div", Value::Int(1)).unwrap_err();
        assert!(e.message.contains("0 で除算"), "{}", e.message);
        assert_eq!(e.trace, vec!["R div".to_string()]);
    });
}

#[test]
fn match_selects_arm_with_payload() {
    let src = r#"T Result
  | Ok Int
  | Ng

R pick r
  Result > Int

  match r

    Ok amount
      amount + 0

    Ng
      -1

F main
  Void
"#;
    with_env(src, |loaded, env| {
        let (type_id, ctor) = env.modules[ENTRY].ctor("Ok").unwrap();
        let v = call(
            loaded,
            env,
            "pick",
            Value::Adt {
                type_id,
                ctor,
                payload: Some(Box::new(Value::Int(42))),
            },
        )
        .unwrap();
        assert!(matches!(v, Value::Int(42)));
    });
}

#[test]
fn transition_is_identity() {
    let src = r#"T OrderId [Text]
T UnpaidOrder [OrderId]
T PaidOrder [OrderId]

R pay order
  UnpaidOrder => PaidOrder

F main
  Void
"#;
    with_env(src, |loaded, env| {
        let v = call(loaded, env, "pay", Value::text("O001")).unwrap();
        let Value::Text(s) = v else { panic!() };
        assert_eq!(s.as_str(), "O001");
    });
}

#[test]
fn record_fields_stored_in_declared_order() {
    let src = "T Pair {\n  first Int\n  second Int\n}\n\nR make n\n  Int > Pair\n\n  Pair { second = 2\n first = 1 }\n\nF main\n  Void\n";
    with_env(src, |l, e| {
        let v = call(l, e, "make", Value::Int(0)).unwrap();
        match v {
            Value::Record(rv) => {
                assert_eq!(rv.fields.len(), 2);
                assert!(matches!(rv.fields[0], Value::Int(1)));
                assert!(matches!(rv.fields[1], Value::Int(2)));
            }
            other => panic!("not a record: {:?}", other),
        }
    });
}

#[test]
fn index_counts_from_zero_and_reports_range() {
    let src = r#"R second xs
  List<Int> > Int ! Error

  at xs 1

R tenth xs
  List<Int> > Int ! Error

  at xs 10

F main
  Void
"#;
    with_env(src, |loaded, env| {
        let xs = Value::List(vec![Value::Int(7), Value::Int(8), Value::Int(9)]);
        match call(loaded, env, "second", xs).unwrap() {
            Value::Int(n) => assert_eq!(n, 8),
            other => panic!("Int 以外: {:?}", other),
        }
        let ys = Value::List(vec![Value::Int(7), Value::Int(8), Value::Int(9)]);
        let e = call(loaded, env, "tenth", ys).unwrap_err();
        assert_eq!(e.message, "添字 10 は範囲外です (要素数 3)");
        assert_eq!(e.file, ENTRY);
        assert!(e.span.is_some());
        assert_eq!(e.trace, vec!["R tenth".to_string()]);
    });
}

#[test]
fn and_or_do_not_look_at_a_deciding_right_side() {
    let src = r#"R guarded x
  Int > Bool ! Error

  x == 0 or 10 / x > 1

F main
  Void
"#;
    with_env(src, |loaded, env| {
        match call(loaded, env, "guarded", Value::Int(0)).unwrap() {
            Value::Bool(b) => assert!(b),
            other => panic!("Bool 以外: {:?}", other),
        }
        match call(loaded, env, "guarded", Value::Int(20)).unwrap() {
            Value::Bool(b) => assert!(!b),
            other => panic!("Bool 以外: {:?}", other),
        }
    });
}

#[test]
fn int_sum_and_product_never_fail() {
    let src = r#"R twice x
  Int > Int

  x * 2

R quotient x
  Int > Int ! Error

  x / (0 - 1)

F main
  Void
"#;
    with_env(src, |loaded, env| {
        match call(loaded, env, "twice", Value::Int(i64::MAX)).unwrap() {
            Value::Int(n) => assert_eq!(n, -2),
            other => panic!("Int 以外: {:?}", other),
        }
        match call(loaded, env, "twice", Value::Int(21)).unwrap() {
            Value::Int(n) => assert_eq!(n, 42),
            other => panic!("Int 以外: {:?}", other),
        }
        let e = call(loaded, env, "quotient", Value::Int(i64::MIN)).unwrap_err();
        assert_eq!(e.message, "Int の範囲を超えました");
        assert_eq!(e.trace, vec!["R quotient".to_string()]);
    });
}

#[test]
fn when_takes_the_branch_its_condition_picks() {
    let src = r#"R sign x
  Int > Int

  when x < 0
    true  0 - 1
    false
      when x == 0
        true  0
        false 1

F main
  Void
"#;
    with_env(src, |loaded, env| {
        for (arg, want) in [(-5i64, -1i64), (0, 0), (9, 1)] {
            match call(loaded, env, "sign", Value::Int(arg)).unwrap() {
                Value::Int(n) => assert_eq!(n, want),
                other => panic!("Int 以外: {:?}", other),
            }
        }
    });
}

#[test]
fn bindings_feed_the_result() {
    let src = r#"R withTax price
  Decimal > Decimal

  tax : Decimal =
    price * 0.10

  total : Decimal =
    price + tax

  total

F main
  Void
"#;
    with_env(src, |loaded, env| {
        let v = call(
            loaded,
            env,
            "withTax",
            Value::Decimal(Dec { negative: false, magnitude: 10000, scale: 1 }),
        )
        .unwrap();
        let Value::Decimal(d) = v else { panic!("Decimal 以外: {:?}", v) };
        assert_eq!(dec_normalize(d), Dec { negative: false, magnitude: 1100, scale: 0 });
    });
}
