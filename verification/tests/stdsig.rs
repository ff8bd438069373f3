use tcrf::diagnostics::{codes, Diagnostics};
use tcrf::lexer;
use tcrf::loader::{self, ModuleUnit};
use tcrf::parser;
use tcrf::resolver;
use tcrf::span::SourceFile;
use tcrf::stdsig::{build, check, find_sig, StdSig};
use tcrf::types::{Env, Type};

    fn sigs_of(src: &str) -> Vec<StdSig> {
        let file = SourceFile::new("std.tcrf", src);
        let mut diags = Diagnostics::new();
        let toks = lexer::lex(&file, &mut diags);
        let program = parser::parse(toks, &mut diags);
        let unit = ModuleUnit {
            name: "std".to_string(),
            file,
            program,
            import_targets: Vec::new(),
            is_std: true,
        };
        let sigs = build(&unit, &mut diags);
        assert!(diags.is_empty(), "std.tcrf diagnostics: {:?}", diags.items);
        sigs
    }

    /// An environment: a small program with the usage type `Price [Decimal]`.
    fn with_env<R>(f: impl FnOnce(&Env, Type) -> R) -> R {
        let mut diags = Diagnostics::new();
        let loaded = loader::load_str("t.tcrf", "T Price [Decimal]\n\nF main\n  Void\n", &mut diags);
        let env = resolver::resolve(&loaded, &mut diags);
        let price = Type::Named(env.modules[0].type_id("Price").unwrap());
        f(&env, price)
    }

    #[test]
    fn var_binds_and_instantiates_output() {
        let sigs = sigs_of("R first values\n  List<A> > A ! Error\n");
        with_env(|env, price| {
            let (out, can_fail) =
                check(find_sig(&sigs, "first").unwrap(), None, &[Type::List(Box::new(price.copy()))], env).unwrap();
            assert_eq!(out, price);
            assert!(can_fail);
        });
    }

    #[test]
    fn usage_type_is_transparent_for_lists_and_scalars() {
        let sigs = sigs_of("R decimal value\n  Decimal > Text\n");
        with_env(|env, price| {
            // the usage type Price is accepted as its inner type Decimal
            let (out, _) = check(find_sig(&sigs, "decimal").unwrap(), None, &[price], env).unwrap();
            assert_eq!(out, Type::Text);
        });
    }

    #[test]
    fn multi_arg_var_must_be_consistent() {
        let sigs = sigs_of("R prepend value values\n  A, List<A> > List<A>\n");
        with_env(|env, price| {
            let list = Type::List(Box::new(price.copy()));
            let ok = check(find_sig(&sigs, "prepend").unwrap(), None, &[price.copy(), list.copy()], env);
            assert!(ok.is_ok());
            // prepending to a list of another element type is refused
            let bad = check(
                find_sig(&sigs, "prepend").unwrap(),
                None,
                &[Type::Int, Type::List(Box::new(price))],
                env,
            );
            assert!(bad.is_err());
        });
    }

    #[test]
    fn arity_mismatch_is_error() {
        let sigs = sigs_of("R concat left right\n  Text, Text > Text\n");
        with_env(|env, _| {
            let e = check(find_sig(&sigs, "concat").unwrap(), None, &[Type::Text], env).unwrap_err();
            assert!(e.contains("2個"), "{}", e);
        });
    }

    #[test]
    fn body_rule_is_rejected_in_std_decl() {
        let file = SourceFile::new("std.tcrf", "R f x\n  Int > Int\n\n  x\n");
        let mut diags = Diagnostics::new();
        let toks = lexer::lex(&file, &mut diags);
        let program = parser::parse(toks, &mut diags);
        let unit = ModuleUnit {
            name: "std".to_string(),
            file,
            program,
            import_targets: Vec::new(),
            is_std: true,
        };
        build(&unit, &mut diags);
        assert!(diags
            .items
            .iter()
            .any(|i| i.code == codes::RESOLVE_STD_DECL));
    }
