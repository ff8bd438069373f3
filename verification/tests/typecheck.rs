use tcrf::diagnostics::{codes, Code, Diagnostics};
use tcrf::loader::{self, Loaded};
use tcrf::resolver;
use tcrf::typecheck;

fn compile(src: &str) -> (Diagnostics, Loaded) {
    let mut diags = Diagnostics::new();
    let loaded = loader::load_str("t.tcrf", src, &mut diags);
    let env = resolver::resolve(&loaded, &mut diags);
    typecheck::typecheck(&loaded, &env, &mut diags);
    (diags, loaded)
}

fn assert_ok(src: &str) {
    let (d, l) = compile(src);
    assert!(
        d.is_empty(),
        "unexpected diagnostics:\n{}",
        d.render(&l.units[0].file)
    );
}

fn assert_has(src: &str, code: Code) {
    let (d, l) = compile(src);
    assert!(
        d.items.iter().any(|i| i.code == code),
        "expected {} but got:\n{}",
        code.as_str(),
        d.render(&l.units[0].file)
    );
}

    const TAX: &str = r#"import std

T Price [Decimal]
T TaxRate [Decimal]
T TaxAmount [Decimal]
T TotalAmount [Decimal]

C standardTaxRate = TaxRate 0.10

R calculateTotal price
  Price > TotalAmount

  tax : TaxAmount =
    price * standardTaxRate

  total : TotalAmount =
    price + tax

  total

R totalText total
  TotalAmount > Text

  std.decimal total

F main
  Price 1000.0
  calculateTotal
  totalText
  std.printLine
"#;

    #[test]
    fn tax_example_checks() {
        assert_ok(TAX);
    }

    #[test]
    fn hello_world_checks() {
        assert_ok("import std\n\nF main\n  Text \"Hello, World!\"\n  std.printLine\n");
    }

    #[test]
    fn grade_example_checks() {
        assert_ok(
            r#"import std

T Score [Int]

T Grade
  | Excellent
  | Passed
  | Failed

R judge score
  Score > Grade

  when score >= 80
    true
      Excellent

    false
      when score >= 60
        true
          Passed

        false
          Failed

R gradeText grade
  Grade > Text

  match grade

    Excellent
      Text "Excellent"

    Passed
      Text "Passed"

    Failed
      Text "Failed"

F main
  Score 75
  judge
  gradeText
  std.printLine
"#,
        );
    }

    #[test]
    fn transition_example_checks() {
        assert_ok(
            r#"T OrderId [Text]

T UnpaidOrder [OrderId]
T PaidOrder [OrderId]
T ShippedOrder [OrderId]

R pay order
  UnpaidOrder => PaidOrder

R ship order
  PaidOrder => ShippedOrder

R report order
  ShippedOrder > Void

  Void

F main
  UnpaidOrder (OrderId "O001")
  pay
  ship
  report
"#,
        );
    }

    #[test]
    fn ship_unpaid_is_flow_mismatch() {
        assert_has(
            r#"T OrderId [Text]
T UnpaidOrder [OrderId]
T PaidOrder [OrderId]
T ShippedOrder [OrderId]

R ship order
  PaidOrder => ShippedOrder

R report order
  ShippedOrder > Void
  Void

F main
  UnpaidOrder (OrderId "O001")
  ship
  report
"#,
            codes::TYPE_FLOW_MISMATCH,
        );
    }

    #[test]
    fn from_expression_checks() {
        // `A from x` と、それによる => 相当の明示的な書き換え
        assert_ok(
            r#"T OrderId [Text]
T UnpaidOrder [OrderId]
T PaidOrder [OrderId]

R pay order
  UnpaidOrder > PaidOrder

  paid : PaidOrder =
    PaidOrder from order

  paid

F main
  UnpaidOrder (OrderId "O001")
  pay
  report

R report order
  PaidOrder > Void

  Void
"#,
        );
    }

    #[test]
    fn from_needs_same_inner() {
        assert_has(
            r#"T A [Text]
T B [Int]

R conv x
  B > A

  A from x

F main
  Void
"#,
            codes::TYPE_TRANSITION,
        );
    }

    #[test]
    fn from_target_must_be_usage_type() {
        assert_has(
            r#"T P {
  a Int
}

T Q [Int]

R conv x
  Q > P

  P from x

F main
  Void
"#,
            codes::TYPE_TRANSITION,
        );
    }

    #[test]
    fn from_operand_must_be_usage_type() {
        // 素の Int からの from は不可 (通常の構築 `A x` を使う)
        assert_has(
            r#"T A [Int]
T B [Int]

R conv x
  Int > A

  A from x

F main
  Void
"#,
            codes::TYPE_TRANSITION,
        );
    }

    #[test]
    fn transition_needs_same_inner() {
        assert_has(
            "T A [Text]\nT B [Int]\n\nR conv x\n  A => B\n\nF main\n  Void\n",
            codes::TYPE_TRANSITION,
        );
    }

    #[test]
    fn missing_error_mark() {
        assert_has(
            r#"import std

R firstOf values
  List<Int> > Int

  std.first values

F main
  Void
"#,
            codes::TYPE_MISSING_ERROR_MARK,
        );
    }

    #[test]
    fn main_can_call_failable_without_mark() {
        assert_ok(
            r#"import std

T Limit [Int]

R build limit
  Limit > List<Int> ! Error

  std.inclusive std.RangeInput {
    first = 1
    last  = 3
  }

R listText values
  List<Int> > Text

  std.intList values

F main
  Limit 3
  build
  listText
  std.printLine
"#,
        );
    }

    #[test]
    fn non_exhaustive_match() {
        assert_has(
            r#"T Grade
  | Excellent
  | Passed
  | Failed

R gradeText grade
  Grade > Text

  match grade

    Excellent
      Text "E"

F main
  Void
"#,
            codes::TYPE_MATCH_NOT_EXHAUSTIVE,
        );
    }

    #[test]
    fn shadowing_is_error() {
        assert_has(
            "R f x\n  Int > Int\n\n  x = 10\n\n  x\n\nF main\n  Void\n",
            codes::TYPE_SHADOWING,
        );
    }

    #[test]
    fn reassignment_is_error() {
        assert_has(
            "R f x\n  Int > Int\n\n  y = 10\n  y = 20\n\n  y\n\nF main\n  Void\n",
            codes::TYPE_REASSIGNMENT,
        );
    }

    #[test]
    fn record_missing_field() {
        assert_has(
            r#"T P {
  a Int
  b Int
}

R f x
  Int > P

  P {
    a = 1
  }

F main
  Void
"#,
            codes::TYPE_RECORD_FIELDS,
        );
    }

    #[test]
    fn usage_arithmetic_needs_annotation() {
        assert_has(
            r#"T Price [Decimal]
T TaxRate [Decimal]

C rate = TaxRate 0.10

R f price
  Price > Decimal

  x =
    price * rate

  0.0

F main
  Void
"#,
            codes::TYPE_CANNOT_INFER,
        );
    }

    #[test]
    fn missing_main() {
        assert_has("T A [Int]\n", codes::TYPE_MAIN);
    }

    #[test]
    fn duplicate_import() {
        assert_has(
            "import std\nimport std\n\nF main\n  Void\n",
            codes::RESOLVE_IMPORT_CONFLICT,
        );
    }

    #[test]
    fn recursive_type_is_error() {
        assert_has(
            "T Node {\n  next Node\n}\n\nF main\n  Void\n",
            codes::RESOLVE_RECURSIVE_TYPE,
        );
    }

    #[test]
    fn const_cycle_is_error() {
        assert_has(
            "C a = b\nC b = a\n\nF main\n  Void\n",
            codes::RESOLVE_CONST_CYCLE,
        );
    }

    #[test]
    fn sieve_example_checks() {
        assert_ok(
            r#"import std

T Limit {
  value Int
}

T Candidates {
  values List<Int>
}

T Primes {
  values List<Int>
}

T FilterInput {
  divisor Int
  values  List<Int>
}

T RangeInput {
  first Int
  last  Int
}

R removeMultiples input
  FilterInput > List<Int> ! Error

  when std.isEmpty input.values
    true
      std.empty<Int>

    false
      value : Int =
        std.first input.values

      remaining : List<Int> =
        std.rest input.values

      filtered : List<Int> =
        removeMultiples FilterInput {
          divisor = input.divisor
          values  = remaining
        }

      when value % input.divisor == 0
        true
          filtered

        false
          std.prepend value filtered

R sieve candidates
  Candidates > Primes ! Error

  when std.isEmpty candidates.values
    true
      Primes {
        values = std.empty<Int>
      }

    false
      prime : Int =
        std.first candidates.values

      remaining : List<Int> =
        std.rest candidates.values

      filtered : List<Int> =
        removeMultiples FilterInput {
          divisor = prime
          values  = remaining
        }

      restPrimes : Primes =
        sieve Candidates {
          values = filtered
        }

      Primes {
        values =
          std.prepend prime restPrimes.values
      }

R findPrimes limit
  Limit > Primes ! Error

  values : List<Int> =
    std.inclusive RangeInput {
      first = 2
      last  = limit.value
    }

  sieve Candidates {
    values = values
  }

R primesText primes
  Primes > Text

  std.intList primes.values

F main
  Limit {
    value = 100
  }
  findPrimes
  primesText
  std.printLine
"#,
        );
    }

    #[test]
    fn flow_match_checks() {
        assert_ok(
            r#"import std

T PaymentRecord [Text]
T RejectionReason [Text]

T PaymentResult
  | Paid PaymentRecord
  | Rejected RejectionReason

R createReceipt record
  PaymentRecord > Text

  Text "receipt"

R rejectionText reason
  RejectionReason > Text

  Text "rejected"

F handlePayment
  PaymentResult > Void

  match
    Paid
      createReceipt
      std.printLine

    Rejected
      rejectionText
      std.printLine

F main
  Paid (PaymentRecord "P1")
  handlePayment
"#,
        );
    }

    #[test]
    fn non_exhaustive_match_names_missing_ctors() {
        let (d, _) = compile(
            r#"T Grade
  | Excellent
  | Passed
  | Failed

R gradeText grade
  Grade > Text

  match grade

    Excellent
      Text "E"

F main
  Void
"#,
        );
        let m = d
            .items
            .iter()
            .find(|i| i.code == codes::TYPE_MATCH_NOT_EXHAUSTIVE)
            .expect("a non-exhaustive match diagnostic");
        assert!(m.message.contains("Passed, Failed"), "{}", m.message);
    }

    #[test]
    fn recursive_type_reported_once() {
        let (d, _) = compile("T Node {\n  next Node\n}\n\nF main\n  Void\n");
        let recs: Vec<_> = d
            .items
            .iter()
            .filter(|i| i.code == codes::RESOLVE_RECURSIVE_TYPE)
            .collect();
        assert_eq!(recs.len(), 1);
        assert_eq!(recs[0].message, "型 `Node` は再帰的に定義されています");
    }

    #[test]
    fn self_referring_const_is_cycle() {
        assert_has("C a = a + 1\n\nF main\n  Void\n", codes::RESOLVE_CONST_CYCLE);
    }

#[test]
fn match_arms_of_different_types_are_reported() {
    let (d, l) = compile(
        "T Grade\n  | Good\n  | Bad\n\nR f grade\n  Grade > Int\n\n  v =\n    match grade\n\n      Good\n        1\n\n      Bad\n        \"x\"\n\n  0\n\nF main\n  Void\n",
    );
    assert!(
        d.items.iter().any(|i| i.code == codes::TYPE_MISMATCH && i.message.contains("match の分岐の型が一致しません")),
        "{}",
        d.render(&l.units[0].file)
    );
}

#[test]
fn a_literal_argument_of_the_wrong_type_is_reported() {
    assert_has(
        "R double x\n  Int > Int\n\n  x * 2\n\nR g x\n  Int > Int\n\n  double \"two\"\n\nF main\n  Void\n",
        codes::TYPE_MISMATCH,
    );
}

#[test]
fn operators_on_a_local_value_check_its_type() {
    assert_has("R f x\n  Int > Bool\n\n  x == \"a\"\n\nF main\n  Void\n", codes::TYPE_OPERATOR);
    assert_ok("R f x\n  Int > Int\n\n  x + x\n\nF main\n  Void\n");
}
