use tcrf::decimal::Dec;
use tcrf::diagnostics::{codes, Diagnostics};
use tcrf::lexer::lex;
use tcrf::span::SourceFile;
use tcrf::token::TokenKind;

fn kinds(src: &str) -> (Vec<TokenKind>, Diagnostics) {
    let file = SourceFile::new("t.tcrf", src);
    let mut diags = Diagnostics::new();
    let toks = lex(&file, &mut diags);
    (toks.into_iter().map(|t| t.kind).collect(), diags)
}

    #[test]
    fn lexer_hello_world() {
        let (k, d) = kinds("import std\n\nF main\n  Text \"Hello, World!\"\n  std.printLine\n");
        assert!(d.is_empty(), "{:?}", d.items);
        assert_eq!(
            k,
            vec![
                TokenKind::KwImport,
                TokenKind::LowerIdent("std".into()),
                TokenKind::Newline,
                TokenKind::KwF,
                TokenKind::LowerIdent("main".into()),
                TokenKind::Newline,
                TokenKind::Indent,
                TokenKind::UpperIdent("Text".into()),
                TokenKind::TextLit("Hello, World!".into()),
                TokenKind::Newline,
                TokenKind::LowerIdent("std".into()),
                TokenKind::Dot,
                TokenKind::LowerIdent("printLine".into()),
                TokenKind::Newline,
                TokenKind::Dedent,
                TokenKind::Eof,
            ]
        );
    }

    #[test]
    fn trailing_comment_inside_braces() {
        // 括弧内の複数行構造でも行末コメントを書ける (§2.1)
        let (k, d) = kinds("T P {  # レコード\n  a Int  # フィールド\n}\n");
        assert!(d.is_empty(), "{:?}", d.items);
        assert_eq!(
            k,
            vec![
                TokenKind::KwT,
                TokenKind::UpperIdent("P".into()),
                TokenKind::LBrace,
                TokenKind::Newline,
                TokenKind::LowerIdent("a".into()),
                TokenKind::UpperIdent("Int".into()),
                TokenKind::Newline,
                TokenKind::RBrace,
                TokenKind::Newline,
                TokenKind::Eof,
            ]
        );
    }

    #[test]
    fn hash_inside_literals_is_not_comment() {
        let (k, d) = kinds("C a = \"x # y\"\nC b = '#'\n");
        assert!(d.is_empty(), "{:?}", d.items);
        assert_eq!(
            k,
            vec![
                TokenKind::KwC,
                TokenKind::LowerIdent("a".into()),
                TokenKind::Eq,
                TokenKind::TextLit("x # y".into()),
                TokenKind::Newline,
                TokenKind::KwC,
                TokenKind::LowerIdent("b".into()),
                TokenKind::Eq,
                TokenKind::CharLit('#'),
                TokenKind::Newline,
                TokenKind::Eof,
            ]
        );
    }

    #[test]
    fn comment_lines_do_not_affect_indentation() {
        // ブロック途中のコメント行はインデント量にかかわらず構造に関与しない (§2.1)
        let (k, d) = kinds("R f x\n  a\n# 浅いコメント\n        # 深いコメント\n  b\n");
        assert!(d.is_empty(), "{:?}", d.items);
        assert_eq!(
            k,
            vec![
                TokenKind::KwR,
                TokenKind::LowerIdent("f".into()),
                TokenKind::LowerIdent("x".into()),
                TokenKind::Newline,
                TokenKind::Indent,
                TokenKind::LowerIdent("a".into()),
                TokenKind::Newline,
                TokenKind::LowerIdent("b".into()),
                TokenKind::Newline,
                TokenKind::Dedent,
                TokenKind::Eof,
            ]
        );
    }

    #[test]
    fn tab_indented_comment_line_is_error() {
        // タブ禁止はコメント行にも適用する (§2.1)
        let (_, d) = kinds("F main\n\t# comment\n  Void\n");
        assert!(d.items.iter().any(|i| i.code == codes::LEX_TAB_INDENT));
    }

    #[test]
    fn indent_dedent_nested() {
        let (k, d) = kinds("R f x\n  a\n    b\n  c\n");
        assert!(d.is_empty());
        assert_eq!(
            k,
            vec![
                TokenKind::KwR,
                TokenKind::LowerIdent("f".into()),
                TokenKind::LowerIdent("x".into()),
                TokenKind::Newline,
                TokenKind::Indent,
                TokenKind::LowerIdent("a".into()),
                TokenKind::Newline,
                TokenKind::Indent,
                TokenKind::LowerIdent("b".into()),
                TokenKind::Newline,
                TokenKind::Dedent,
                TokenKind::LowerIdent("c".into()),
                TokenKind::Newline,
                TokenKind::Dedent,
                TokenKind::Eof,
            ]
        );
    }

    #[test]
    fn tab_indent_is_error() {
        let (_, d) = kinds("F main\n\tText \"x\"\n");
        assert!(d.items.iter().any(|i| i.code == codes::LEX_TAB_INDENT));
    }

    #[test]
    fn bad_dedent_is_error() {
        let (_, d) = kinds("F main\n    a\n  b\n");
        assert!(d.items.iter().any(|i| i.code == codes::LEX_BAD_INDENT));
    }

    #[test]
    fn no_indent_tokens_inside_braces() {
        let (k, d) = kinds("F main\n  Limit {\n    value = 100\n  }\n  findPrimes\n");
        assert!(d.is_empty());
        // `{` の内側で INDENT/DEDENT が出ないこと
        assert_eq!(
            k,
            vec![
                TokenKind::KwF,
                TokenKind::LowerIdent("main".into()),
                TokenKind::Newline,
                TokenKind::Indent,
                TokenKind::UpperIdent("Limit".into()),
                TokenKind::LBrace,
                TokenKind::Newline,
                TokenKind::LowerIdent("value".into()),
                TokenKind::Eq,
                TokenKind::IntLit(100),
                TokenKind::Newline,
                TokenKind::RBrace,
                TokenKind::Newline,
                TokenKind::LowerIdent("findPrimes".into()),
                TokenKind::Newline,
                TokenKind::Dedent,
                TokenKind::Eof,
            ]
        );
    }

    #[test]
    fn operators_and_literals() {
        let (k, d) = kinds("x == 1.50 != -2 >= <= => ! | and or not 'A' '\\n'\n");
        assert!(d.is_empty(), "{:?}", d.items);
        assert_eq!(
            k,
            vec![
                TokenKind::LowerIdent("x".into()),
                TokenKind::EqEq,
                TokenKind::DecimalLit(Dec { negative: false, magnitude: 150, scale: 2 }),
                TokenKind::NotEq,
                TokenKind::Minus,
                TokenKind::IntLit(2),
                TokenKind::Ge,
                TokenKind::Le,
                TokenKind::Arrow,
                TokenKind::Bang,
                TokenKind::Pipe,
                TokenKind::KwAnd,
                TokenKind::KwOr,
                TokenKind::KwNot,
                TokenKind::CharLit('A'),
                TokenKind::CharLit('\n'),
                TokenKind::Newline,
                TokenKind::Eof,
            ]
        );
    }

    #[test]
    fn comments_and_blank_lines_skipped() {
        let (k, d) = kinds("# top comment\n\nT Price [Decimal] # trailing\n");
        assert!(d.is_empty());
        assert_eq!(
            k,
            vec![
                TokenKind::KwT,
                TokenKind::UpperIdent("Price".into()),
                TokenKind::LBracket,
                TokenKind::UpperIdent("Decimal".into()),
                TokenKind::RBracket,
                TokenKind::Newline,
                TokenKind::Eof,
            ]
        );
    }

    #[test]
    fn crlf_lines() {
        let (k, d) = kinds("F main\r\n  a\r\n");
        assert!(d.is_empty());
        assert_eq!(
            k,
            vec![
                TokenKind::KwF,
                TokenKind::LowerIdent("main".into()),
                TokenKind::Newline,
                TokenKind::Indent,
                TokenKind::LowerIdent("a".into()),
                TokenKind::Newline,
                TokenKind::Dedent,
                TokenKind::Eof,
            ]
        );
    }

    #[test]
    fn empty_generic() {
        let (k, d) = kinds("std.empty<Int>\n");
        assert!(d.is_empty());
        assert_eq!(
            k,
            vec![
                TokenKind::LowerIdent("std".into()),
                TokenKind::Dot,
                TokenKind::LowerIdent("empty".into()),
                TokenKind::Lt,
                TokenKind::UpperIdent("Int".into()),
                TokenKind::Gt,
                TokenKind::Newline,
                TokenKind::Eof,
            ]
        );
    }

#[test]
fn indents_and_dedents_balance_but_for_bad_indentation() {
    let count = |k: &Vec<TokenKind>, want: &TokenKind| k.iter().filter(|t| *t == want).count();
    let (k, d) = kinds("R f x\n  Int > Int\n\n  when x > 0\n    true  1\n    false\n      2\n\nF main\n  Void\n");
    assert!(d.is_empty(), "{:?}", d.items);
    assert_eq!(count(&k, &TokenKind::Indent), count(&k, &TokenKind::Dedent));
    let (k2, d2) = kinds("F main\n    Void\n  Void\n");
    let bad = d2.items.iter().filter(|i| i.code == codes::LEX_BAD_INDENT).count();
    assert_eq!(bad, 1);
    assert_eq!(count(&k2, &TokenKind::Indent) + bad, count(&k2, &TokenKind::Dedent));
}
