use tcrf::ast::{Decl, Expr, FlowStep, Program, RuleKind, TypeDecl, TypeDeclKind};
use tcrf::diagnostics::{codes, Diagnostics};
use tcrf::lexer;
use tcrf::parser::parse;
use tcrf::span::SourceFile;

    fn parse_ok(src: &str) -> Program {
        let file = SourceFile::new("t.tcrf", src);
        let mut diags = Diagnostics::new();
        let toks = lexer::lex(&file, &mut diags);
        let prog = parse(toks, &mut diags);
        assert!(
            diags.is_empty(),
            "unexpected diagnostics:\n{}",
            diags.render(&file)
        );
        prog
    }

    fn parse_err(src: &str) -> Diagnostics {
        let file = SourceFile::new("t.tcrf", src);
        let mut diags = Diagnostics::new();
        let toks = lexer::lex(&file, &mut diags);
        let _ = parse(toks, &mut diags);
        assert!(!diags.is_empty(), "expected diagnostics but none");
        diags
    }

    #[test]
    fn parser_hello_world() {
        let p = parse_ok("import std\n\nF main\n  Text \"Hello, World!\"\n  std.printLine\n");
        assert_eq!(p.imports.len(), 1);
        assert_eq!(p.imports[0].path, vec!["std"]);
        assert_eq!(p.decls.len(), 1);
        let Decl::Flow(f) = &p.decls[0] else {
            panic!()
        };
        assert_eq!(f.name, "main");
        assert!(f.signature.is_none());
        assert_eq!(f.steps.len(), 2);
        assert!(matches!(f.steps[0], FlowStep::Initial(Expr::Construct { .. })));
        assert!(matches!(&f.steps[1], FlowStep::Call { path, .. } if path.len() == 2));
    }

    #[test]
    fn type_decls() {
        let p = parse_ok(
            "T UserId [Text]\n\nT Product {\n  id    UserId\n  name  Text\n}\n\nT Grade\n  | Excellent\n  | Passed\n  | Failed\n",
        );
        assert_eq!(p.decls.len(), 3);
        assert!(matches!(
            &p.decls[0],
            Decl::Type(TypeDecl {
                kind: TypeDeclKind::Usage(_),
                ..
            })
        ));
        let Decl::Type(rec) = &p.decls[1] else { panic!() };
        let TypeDeclKind::Record(fields) = &rec.kind else {
            panic!()
        };
        assert_eq!(fields.len(), 2);
        let Decl::Type(adt) = &p.decls[2] else { panic!() };
        let TypeDeclKind::Adt(ctors) = &adt.kind else {
            panic!()
        };
        assert_eq!(ctors.len(), 3);
        assert!(ctors.iter().all(|c| c.payload.is_none()));
    }

    #[test]
    fn adt_multi_payload_error() {
        let d = parse_err("T Point\n  | Point Decimal Decimal\n");
        assert!(d
            .items
            .iter()
            .any(|i| i.code == codes::PARSE_ADT_MULTI_PAYLOAD));
    }

    #[test]
    fn const_decl() {
        let p = parse_ok("C standardTaxRate = TaxRate 0.10\n");
        let Decl::Const(c) = &p.decls[0] else { panic!() };
        assert_eq!(c.name, "standardTaxRate");
        assert!(matches!(&c.value, Expr::Construct { name, .. } if name == "TaxRate"));
    }

    #[test]
    fn rule_with_bindings() {
        let p = parse_ok(
            "R calculateTotal price\n  Price > TotalAmount\n\n  tax : TaxAmount =\n    price * standardTaxRate\n\n  total : TotalAmount =\n    price + tax\n\n  total\n",
        );
        let Decl::Rule(r) = &p.decls[0] else { panic!() };
        assert_eq!(r.name, "calculateTotal");
        assert_eq!(r.params[0].0, "price");
        let RuleKind::Normal {
            can_fail, body, ..
        } = &r.kind
        else {
            panic!()
        };
        assert!(!can_fail);
        assert_eq!(body.bindings.len(), 2);
        assert!(matches!(&body.result, Expr::Name { path, .. } if path[0].0 == "total"));
    }

    #[test]
    fn transition_rule() {
        let p = parse_ok("R pay order\n  UnpaidOrder => PaidOrder\n");
        let Decl::Rule(r) = &p.decls[0] else { panic!() };
        assert!(matches!(r.kind, RuleKind::Transition { .. }));
    }

    #[test]
    fn rule_with_when_recursion() {
        let p = parse_ok(
            "R countdown value\n  Int > Void\n\n  when value <= 0\n    true\n      Void\n\n    false\n      countdown (value - 1)\n",
        );
        let Decl::Rule(r) = &p.decls[0] else { panic!() };
        let RuleKind::Normal { body, .. } = &r.kind else {
            panic!()
        };
        let Expr::When {
            then_block,
            else_block,
            ..
        } = &body.result
        else {
            panic!("expected when, got {:?}", body.result)
        };
        assert!(matches!(then_block.result, Expr::VoidLit(_)));
        assert!(matches!(&else_block.result, Expr::Call { args, .. } if args.len() == 1));
    }

    #[test]
    fn when_short_form() {
        let p = parse_ok(
            "R judge score\n  Score > Grade\n\n  when score >= 80\n    true  Excellent\n    false Passed\n",
        );
        let Decl::Rule(r) = &p.decls[0] else { panic!() };
        let RuleKind::Normal { body, .. } = &r.kind else {
            panic!()
        };
        assert!(matches!(body.result, Expr::When { .. }));
    }

    #[test]
    fn match_with_payload() {
        let p = parse_ok(
            "R resultText result\n  PaymentResult > Text\n\n  match result\n\n    Paid record\n      formatPayment record\n\n    Rejected reason\n      formatReason reason\n",
        );
        let Decl::Rule(r) = &p.decls[0] else { panic!() };
        let RuleKind::Normal { body, .. } = &r.kind else {
            panic!()
        };
        let Expr::Match { arms, .. } = &body.result else {
            panic!()
        };
        assert_eq!(arms.len(), 2);
        assert_eq!(arms[0].binding.as_ref().unwrap().0, "record");
    }

    #[test]
    fn flow_with_signature_and_match() {
        let p = parse_ok(
            "F handlePayment\n  PaymentResult > Void\n\n  match\n    Paid\n      createReceipt\n      printReceipt\n\n    Rejected\n      rejectionText\n      std.printLine\n",
        );
        let Decl::Flow(f) = &p.decls[0] else { panic!() };
        assert!(f.signature.is_some());
        assert_eq!(f.steps.len(), 1);
        let FlowStep::Match { arms, .. } = &f.steps[0] else {
            panic!()
        };
        assert_eq!(arms.len(), 2);
        assert_eq!(arms[0].steps.len(), 2);
    }

    #[test]
    fn flow_record_initial() {
        let p = parse_ok("F main\n  Limit {\n    value = 100\n  }\n  findPrimes\n");
        let Decl::Flow(f) = &p.decls[0] else { panic!() };
        assert_eq!(f.steps.len(), 2);
        assert!(matches!(&f.steps[0], FlowStep::Initial(Expr::Record { .. })));
    }

    #[test]
    fn flow_forbids_arithmetic() {
        let d = parse_err("F main\n  1 + 2\n  std.printLine\n");
        assert!(d.items.iter().any(|i| i.code == codes::PARSE_FLOW_FORBIDDEN));
    }

    #[test]
    fn import_after_decl_is_error() {
        let d = parse_err("T UserId [Text]\nimport std\n");
        assert!(d
            .items
            .iter()
            .any(|i| i.code == codes::PARSE_IMPORT_POSITION));
    }

    #[test]
    fn empty_with_type_arg() {
        let p = parse_ok("C x = std.empty<Int>\n");
        let Decl::Const(c) = &p.decls[0] else { panic!() };
        assert!(matches!(&c.value, Expr::Empty { .. }));
    }

    #[test]
    fn list_usage_construction() {
        let p = parse_ok("C ns = Numbers(\n  Number 10.0\n  Number 20.0\n)\n");
        let Decl::Const(c) = &p.decls[0] else { panic!() };
        let Expr::ListConstruct { elems, .. } = &c.value else {
            panic!()
        };
        assert_eq!(elems.len(), 2);
    }

    #[test]
    fn paren_construct_arg() {
        let p = parse_ok("F main\n  UnpaidOrder (OrderId \"O001\")\n  pay\n  ship\n");
        let Decl::Flow(f) = &p.decls[0] else { panic!() };
        // 括弧付き引数は要素1個の ListConstruct として読み、型解決で再解釈する
        let FlowStep::Initial(Expr::ListConstruct { name, elems, .. }) = &f.steps[0] else {
            panic!("got {:?}", f.steps[0])
        };
        assert_eq!(name, "UnpaidOrder");
        assert_eq!(elems.len(), 1);
    }

    #[test]
    fn sieve_parses() {
        let src = r#"import std

T Limit {
  value Int
}

T FilterInput {
  divisor Int
  values  List<Int>
}

R removeMultiples input
  FilterInput > List<Int> ! Error

  when std.isEmpty input.values
    true
      std.empty<Int>

    false
      value : Int =
        std.first input.values

      remaining : List<Int> =
        std.rest input.values

      filtered : List<Int> =
        removeMultiples FilterInput {
          divisor = input.divisor
          values  = remaining
        }

      when value % input.divisor == 0
        true
          filtered

        false
          std.prepend value filtered

F main
  Limit {
    value = 100
  }
  findPrimes
  primesText
  std.printLine
"#;
        let p = parse_ok(src);
        assert_eq!(p.decls.len(), 4);
    }

    #[test]
    fn qualified_record_construct() {
        let p = parse_ok("C r = std.RangeInput {\n  first = 2\n  last  = 5\n}\n");
        let Decl::Const(c) = &p.decls[0] else { panic!() };
        let Expr::Record {
            qualifier, name, ..
        } = &c.value
        else {
            panic!()
        };
        assert_eq!(qualifier.as_deref(), Some("std"));
        assert_eq!(name, "RangeInput");
    }

    #[test]
    fn blank_source_parses_to_empty_program() {
        let file = SourceFile::new("t.tcrf", "\n\n\n");
        let mut diags = Diagnostics::new();
        let toks = lexer::lex(&file, &mut diags);
        let p = parse(toks, &mut diags);
        assert!(p.imports.is_empty());
        assert!(p.decls.is_empty());
        assert!(diags.is_empty());
        let mut none = Diagnostics::new();
        let q = parse(Vec::new(), &mut none);
        assert!(q.imports.is_empty() && q.decls.is_empty() && none.is_empty());
    }

    #[test]
    fn missing_name_is_reported_as_unexpected() {
        let d = parse_err("C = 1\n");
        assert_eq!(d.items[0].code, codes::PARSE_UNEXPECTED);
        assert_eq!(
            d.items[0].message,
            "定数名には小文字で始まる名前が必要ですが、`=`が見つかりました"
        );
    }

    #[test]
    fn flow_without_steps_is_reported() {
        let d = parse_err("F f\n  Int > Int\n");
        assert!(d.items.iter().any(|x| x.code == codes::PARSE_UNEXPECTED));
    }

#[test]
fn a_literal_constant_reads_back() {
    let prog = parse_ok("\nC limit = 42\n\nC flag = true\n\nF main\n  Void\n");
    match &prog.decls[0] {
        Decl::Const(c) => {
            assert_eq!(c.name, "limit");
            assert!(matches!(c.value, Expr::IntLit(42, _)));
        },
        other => panic!("C 以外: {:?}", other),
    }
    match &prog.decls[1] {
        Decl::Const(c) => {
            assert_eq!(c.name, "flag");
            assert!(matches!(c.value, Expr::BoolLit(true, _)));
        },
        other => panic!("C 以外: {:?}", other),
    }
}

#[test]
fn a_name_followed_by_values_is_a_call() {
    let p = parse_ok("R f x\n  Int > Int\n\n  g x 1\n\nR h x\n  Int > Int\n\n  x\n");
    let Decl::Rule(r) = &p.decls[0] else { panic!() };
    let RuleKind::Normal { body, .. } = &r.kind else { panic!() };
    match &body.result {
        Expr::Call { path, args, .. } => {
            assert_eq!(path.len(), 1);
            assert_eq!(path[0].0, "g");
            assert_eq!(args.len(), 2);
        }
        other => panic!("{:?}", other),
    }
    let Decl::Rule(r) = &p.decls[1] else { panic!() };
    let RuleKind::Normal { body, .. } = &r.kind else { panic!() };
    assert!(matches!(&body.result, Expr::Name { path, .. } if path.len() == 1 && path[0].0 == "x"));
}

#[test]
fn a_record_declaration_keeps_its_fields_in_order() {
    let p = parse_ok("T Point {\n  x Int\n\n  y Decimal\n}\n\nF main\n  Void\n");
    let Decl::Type(TypeDecl { name, kind: TypeDeclKind::Record(fields), .. }) = &p.decls[0] else { panic!() };
    assert_eq!(name, "Point");
    assert_eq!(fields.len(), 2);
    assert_eq!(fields[0].name, "x");
    assert_eq!(fields[1].name, "y");
}
