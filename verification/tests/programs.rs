//! Whole programs, spread over files held in memory: loaded through the
//! loader's requests, resolved, checked and run as the command line does.
use tcrf::builtins::Io;
use tcrf::diagnostics::Diagnostics;
use tcrf::eval::run_main;
use tcrf::loader::{LoadReply, LoadRequest, Loaded, Loader, STD_BUILTIN_NAME, STD_DECL_SRC};
use tcrf::resolver;
use tcrf::span::SourceFile;
use tcrf::typecheck;
use tcrf::types::Env;

/// Loads `files[0]` as the entry; the other files are found by their path
/// relative to the project (`a.b` is `a/b.tcrf`).
fn compile(files: &[(&str, &str)]) -> (Diagnostics, Loaded, Env) {
    let mut diags = Diagnostics::new();
    let (entry, src) = files[0];
    let mut ld = Loader::start(entry, src, ".", Some(entry.to_string()), &mut diags);
    while let Some(req) = ld.next(&mut diags) {
        let reply = match req {
            LoadRequest::StdSource => LoadReply::StdSource {
                name: STD_BUILTIN_NAME.to_string(),
                src: STD_DECL_SRC.to_string(),
            },
            LoadRequest::ModuleFile { path, dir } => {
                let rel = format!("{}.tcrf", path.join("/"));
                match files.iter().find(|(n, _)| *n == rel) {
                    Some((n, s)) => LoadReply::Found {
                        canonical: n.to_string(),
                        display: n.to_string(),
                        dir: ".".to_string(),
                        src: Ok(s.to_string()),
                    },
                    None => LoadReply::NotFound { searched: vec![format!("{}/{}", dir, rel)] },
                }
            }
        };
        ld.provide(reply, &mut diags);
    }
    let loaded = ld.finish();
    let env = resolver::resolve(&loaded, &mut diags);
    typecheck::typecheck(&loaded, &env, &mut diags);
    (diags, loaded, env)
}

/// Checks (`check`) or checks and runs (`run`) a project, with `input` as
/// standard input: the exit code, the output and the error text.
fn run_with_input(mode: &str, files: &[(&str, &str)], input: &[&str]) -> (i32, String, String) {
    let (diags, loaded, env) = compile(files);
    let units: Vec<&SourceFile> = loaded.units.iter().map(|u| &u.file).collect();
    if !diags.is_empty() {
        let mut err = diags.render_multi(&units);
        err.push_str(&format!("エラー: {} 件の問題が見つかりました\n", diags.len()));
        return (tcrf::session::exit_code(diags.len(), mode == "check", false), String::new(), err);
    }
    if mode == "check" {
        return (tcrf::session::exit_code(0, true, false), String::new(), String::new());
    }
    let mut lines: Vec<String> = Vec::new();
    loop {
        let at_end = lines.len() >= input.len();
        let io = Io::new(lines.clone(), at_end, None);
        let out = run_main(&loaded, &env, io);
        if out.needs_input {
            lines.push(format!("{}\n", input[lines.len()]));
            continue;
        }
        return match out.result {
            Ok(()) => (tcrf::session::exit_code(0, false, false), out.output, String::new()),
            Err(e) => {
                let mut err = format!("実行時エラー: {}\n", e.message);
                for t in &e.trace {
                    err.push_str(&format!("  {} から伝播\n", t));
                }
                (tcrf::session::exit_code(0, false, true), out.output, err)
            }
        };
    }
}

fn run_project(mode: &str, _name: &str, files: &[(&str, &str)]) -> (i32, String, String) {
    run_with_input(mode, files, &[])
}

const MYLIB: &str = r#"T Doubled [Int]

C base = 100

C _hidden = 1

R double x
  Int > Doubled

  Doubled (x + x)

R _secret x
  Int > Int

  x
"#;

#[test]
fn project_compile_error_exits_2_with_code() {
    // 未払い注文を直接 ship する型遷移違反 (E402)
    let src = r#"T OrderId [Text]
T UnpaidOrder [OrderId]
T PaidOrder [OrderId]
T ShippedOrder [OrderId]

R ship order
  PaidOrder => ShippedOrder

R report order
  ShippedOrder > Void

  Void

F main
  UnpaidOrder (OrderId "X")
  ship
  report
"#;
    let (code, _, stderr) = run_project("check", "flow_mismatch", &[("main.tcrf", src)]);
    assert_eq!(code, 2, "stderr: {}", stderr);
    assert!(stderr.contains("E402"), "stderr: {}", stderr);
}

#[test]
fn project_missing_error_mark_is_e410() {
    let src = r#"import std

R firstOf values
  List<Int> > Int

  std.first values

F main
  Void
"#;
    let (code, _, stderr) = run_project("check", "missing_mark", &[("main.tcrf", src)]);
    assert_eq!(code, 2);
    assert!(stderr.contains("E410"), "stderr: {}", stderr);
}

#[test]
fn project_runtime_error_exits_1() {
    let src = r#"import std

T Input {
  first Int
  last  Int
}

R build x
  Void > List<Int> ! Error

  std.inclusive Input {
    first = 10
    last  = 1
  }

R asText values
  List<Int> > Text

  std.intList values

F main
  Void
  build
  asText
  std.printLine
"#;
    let (code, stdout, stderr) = run_project("run", "runtime_error", &[("main.tcrf", src)]);
    assert_eq!(code, 1, "stdout: {} stderr: {}", stdout, stderr);
    assert!(stderr.contains("実行時エラー"), "stderr: {}", stderr);
    assert!(stderr.contains("R build"), "stderr: {}", stderr);
}

#[test]
fn project_from_expression_preserves_value() {
    // `A from x` は値をそのまま持つ A 型を作る。`=>` の展開形と同じ動作
    let src = r#"import std

T OrderId [Text]
T UnpaidOrder [OrderId]
T PaidOrder [OrderId]
T ShippedOrder [OrderId]

R pay order
  UnpaidOrder > PaidOrder

  paid : PaidOrder =
    PaidOrder from order

  paid

R ship order
  PaidOrder => ShippedOrder

R shippedText order
  ShippedOrder > Text

  Text "shipped"

F main
  UnpaidOrder (OrderId "O001")
  pay
  ship
  shippedText
  std.printLine
"#;
    let (code, stdout, stderr) = run_project("run", "from_expr", &[("main.tcrf", src)]);
    assert_eq!(code, 0, "stderr: {}", stderr);
    assert_eq!(stdout, "shipped\n");
}

#[test]
fn project_comments_do_not_change_program_behavior() {
    // comments of whole lines, line ends, inside braces and inside blocks change nothing
    let src = "# プログラム全体のコメント\nimport std  # 標準ライブラリ\n\nT Total [Int]  # 用途型\n\nT Pair {        # レコード\n  a Int         # 1つめ\n  b Int         # 2つめ\n}\n\nR add p\n  # ブロック途中のコメント (浅い)\n  Pair > Total\n      # ブロック途中のコメント (深い)\n  Total (p.a + p.b)  # 構築して返す\n\nR toText t\n  Total > Text\n\n  std.int t  # \"#\" を含む文字列も平気: \"a # b\"\n\nF main\n  Pair {\n    a = 40  # 行末\n    b = 2\n  }\n  add\n  toText\n  std.printLine\n# 末尾コメント";
    let (code, stdout, stderr) = run_project("run", "comments", &[("main.tcrf", src)]);
    assert_eq!(code, 0, "stderr: {}", stderr);
    assert_eq!(stdout, "42\n");
}

#[test]
fn project_tab_indent_is_lex_error() {
    let src = "F main\n\tVoid\n";
    let (code, _, stderr) = run_project("check", "tab_indent", &[("main.tcrf", src)]);
    assert_eq!(code, 2);
    assert!(stderr.contains("E102"), "stderr: {}", stderr);
}

#[test]
fn project_user_library_import_works() {
    // エントリと同じディレクトリの mylib.tcrf を import して R・C・型を使う
    let main = r#"import std
import mylib

R asText d
  mylib.Doubled > Text

  std.int d

F main
  21
  mylib.double
  asText
  std.printLine
"#;
    let (code, stdout, stderr) = run_project(
        "run",
        "user_import",
        &[("main.tcrf", main), ("mylib.tcrf", MYLIB)],
    );
    assert_eq!(code, 0, "stderr: {}", stderr);
    assert_eq!(stdout, "42\n");
}

#[test]
fn project_user_library_alias_and_const() {
    // `as` 別名と、モジュール公開定数の C からの参照
    let main = r#"import std
import mylib as ml

C start = ml.base

F main
  start
  ml.double
  toText
  std.printLine

R toText d
  ml.Doubled > Text

  std.int d
"#;
    let (code, stdout, stderr) = run_project(
        "run",
        "alias_const",
        &[("main.tcrf", main), ("mylib.tcrf", MYLIB)],
    );
    assert_eq!(code, 0, "stderr: {}", stderr);
    assert_eq!(stdout, "200\n");
}

#[test]
fn project_dotted_module_maps_to_subdirectory() {
    // import utils.math → utils/math.tcrf。既定修飾名は最終要素 math
    let main = r#"import std
import utils.math

F main
  5
  math.square
  math.intText
  std.printLine
"#;
    let lib = r#"import std

R square x
  Int > Int

  x * x

R intText x
  Int > Text

  std.int x
"#;
    let (code, stdout, stderr) = run_project(
        "run",
        "dotted",
        &[("main.tcrf", main), ("utils/math.tcrf", lib)],
    );
    assert_eq!(code, 0, "stderr: {}", stderr);
    assert_eq!(stdout, "25\n");
}

#[test]
fn project_missing_module_is_e304_with_search_paths() {
    let main = "import nosuchlib\n\nF main\n  Void\n";
    let (code, _, stderr) = run_project("check", "missing_mod", &[("main.tcrf", main)]);
    assert_eq!(code, 2, "stderr: {}", stderr);
    assert!(stderr.contains("E304"), "stderr: {}", stderr);
    assert!(stderr.contains("探索したパス"), "stderr: {}", stderr);
}

#[test]
fn project_unknown_std_submodule_is_e304() {
    // std 配下は予約されており、ファイル探索されない
    let (code, _, stderr) = run_project("check", "std_submodule", &[("main.tcrf", "import std.mylib\n\nF main\n  Void\n")]);
    assert_eq!(code, 2, "stderr: {}", stderr);
    assert!(stderr.contains("E304"), "stderr: {}", stderr);
    assert!(stderr.contains("std.mylib"), "stderr: {}", stderr);
}

#[test]
fn project_import_cycle_is_e309() {
    let a = "import b\n\nF main\n  Void\n";
    let b = "import a\n\nR id x\n  Int > Int\n\n  x\n";
    let (code, _, stderr) = run_project("check", "cycle", &[("a.tcrf", a), ("b.tcrf", b)]);
    assert_eq!(code, 2, "stderr: {}", stderr);
    assert!(stderr.contains("E309"), "stderr: {}", stderr);
    assert!(stderr.contains("循環"), "stderr: {}", stderr);
}

#[test]
fn project_underscore_names_are_private() {
    let main = r#"import mylib

F main
  1
  mylib._secret
"#;
    let (code, _, stderr) = run_project(
        "check",
        "private",
        &[("main.tcrf", main), ("mylib.tcrf", MYLIB)],
    );
    assert_eq!(code, 2, "stderr: {}", stderr);
    assert!(stderr.contains("公開されていません"), "stderr: {}", stderr);
}

#[test]
fn project_module_cannot_define_main() {
    let main = "import mylib\n\nF main\n  Void\n";
    let lib = "F main\n  Void\n";
    let (code, _, stderr) = run_project(
        "check",
        "mod_main",
        &[("main.tcrf", main), ("mylib.tcrf", lib)],
    );
    assert_eq!(code, 2, "stderr: {}", stderr);
    assert!(stderr.contains("E409"), "stderr: {}", stderr);
    assert!(
        stderr.contains("モジュールには `F main` を定義できません"),
        "stderr: {}",
        stderr
    );
}

#[test]
fn project_diamond_import_shares_one_module_instance() {
    // エントリと中間モジュールの両方が mylib を import しても型は同一
    let main = r#"import std
import mylib
import middle

F main
  7
  mylib.double
  middle.describe
  std.printLine
"#;
    let middle = r#"import std
import mylib

R describe d
  mylib.Doubled > Text

  std.int d
"#;
    let (code, stdout, stderr) = run_project(
        "run",
        "diamond",
        &[
            ("main.tcrf", main),
            ("middle.tcrf", middle),
            ("mylib.tcrf", MYLIB),
        ],
    );
    assert_eq!(code, 0, "stderr: {}", stderr);
    assert_eq!(stdout, "14\n");
}

#[test]
fn project_usage_type_arithmetic_needs_usage_result() {
    // 用途型どうしの演算結果を素の Decimal にはできない (E411)
    let src = r#"T Price [Decimal]

R double price
  Price > Decimal

  price + price

F main
  Void
"#;
    let (code, _, stderr) = run_project("check", "usage_mismatch", &[("main.tcrf", src)]);
    assert_eq!(code, 2);
    assert!(stderr.contains("E411"), "stderr: {}", stderr);
}

#[test]
fn project_declared_but_unimplemented_std_is_e312() {
    // std.tcrf に宣言のみある (未実装コメント付き) sort の呼び出し
    let src = r#"import std

R sorted values
  List<Int> > List<Int>

  std.sort values

F main
  Void
"#;
    let (code, _, stderr) = run_project("check", "unimplemented", &[("main.tcrf", src)]);
    assert_eq!(code, 2, "stderr: {}", stderr);
    assert!(stderr.contains("E312"), "stderr: {}", stderr);
    assert!(stderr.contains("未実装"), "stderr: {}", stderr);
}

#[test]
fn project_external_rule_outside_std_is_e310() {
    // 本体のない R 宣言はユーザーコードでは書けない
    let src = "R f x\n  Int > Int\n\nF main\n  Void\n";
    let (code, _, stderr) = run_project("check", "external_rule", &[("main.tcrf", src)]);
    assert_eq!(code, 2, "stderr: {}", stderr);
    assert!(stderr.contains("E310"), "stderr: {}", stderr);
}

#[test]
fn project_hello_world_prints() {
    let src = "import std\n\nF main\n  Text \"Hello, World!\"\n  std.printLine\n";
    let (code, stdout, stderr) = run_project("run", "hello", &[("main.tcrf", src)]);
    assert_eq!(code, 0, "stderr: {}", stderr);
    assert_eq!(stdout, "Hello, World!\n");
}

#[test]
fn project_tax_prints_total() {
    let src = r#"import std

T Price [Decimal]
T TaxRate [Decimal]
T TaxAmount [Decimal]
T TotalAmount [Decimal]

C standardTaxRate = TaxRate 0.10

R calculateTotal price
  Price > TotalAmount

  tax : TaxAmount =
    price * standardTaxRate

  total : TotalAmount =
    price + tax

  total

R totalText total
  TotalAmount > Text

  std.decimal total

F main
  Price 1000.0
  calculateTotal
  totalText
  std.printLine
"#;
    let (code, stdout, stderr) = run_project("run", "tax", &[("main.tcrf", src)]);
    assert_eq!(code, 0, "stderr: {}", stderr);
    assert_eq!(stdout, "1100\n");
}

#[test]
fn project_grade_prints_passed() {
    let src = r#"import std

T Score [Int]

T Grade
  | Excellent
  | Passed
  | Failed

R judge score
  Score > Grade

  when score >= 80
    true
      Excellent

    false
      when score >= 60
        true
          Passed

        false
          Failed

R gradeText grade
  Grade > Text

  match grade

    Excellent
      Text "Excellent"

    Passed
      Text "Passed"

    Failed
      Text "Failed"

F main
  Score 75
  judge
  gradeText
  std.printLine
"#;
    let (code, stdout, stderr) = run_project("run", "grade", &[("main.tcrf", src)]);
    assert_eq!(code, 0, "stderr: {}", stderr);
    assert_eq!(stdout, "Passed\n");
}

#[test]
fn project_sieve_prints_primes() {
    let src = r#"import std

T Limit {
  value Int
}

T Candidates {
  values List<Int>
}

T Primes {
  values List<Int>
}

T FilterInput {
  divisor Int
  values  List<Int>
}

R removeMultiples input
  FilterInput > List<Int> ! Error

  when std.isEmpty input.values
    true
      std.empty<Int>

    false
      value : Int =
        std.first input.values

      remaining : List<Int> =
        std.rest input.values

      filtered : List<Int> =
        removeMultiples FilterInput {
          divisor = input.divisor
          values  = remaining
        }

      when value % input.divisor == 0
        true
          filtered

        false
          std.prepend value filtered

R sieve candidates
  Candidates > Primes ! Error

  when std.isEmpty candidates.values
    true
      Primes {
        values = std.empty<Int>
      }

    false
      prime : Int =
        std.first candidates.values

      remaining : List<Int> =
        std.rest candidates.values

      filtered : List<Int> =
        removeMultiples FilterInput {
          divisor = prime
          values  = remaining
        }

      restPrimes : Primes =
        sieve Candidates {
          values = filtered
        }

      Primes {
        values =
          std.prepend prime restPrimes.values
      }

R findPrimes limit
  Limit > Primes ! Error

  values : List<Int> =
    std.inclusive std.RangeInput {
      first = 2
      last  = limit.value
    }

  sieve Candidates {
    values = values
  }

R primesText primes
  Primes > Text

  std.intList primes.values

F main
  Limit {
    value = 30
  }
  findPrimes
  primesText
  std.printLine
"#;
    let (code, stdout, stderr) = run_project("run", "sieve", &[("main.tcrf", src)]);
    assert_eq!(code, 0, "stderr: {}", stderr);
    assert_eq!(stdout, "[2, 3, 5, 7, 11, 13, 17, 19, 23, 29]\n");
}

#[test]
fn project_read_text_takes_input_lines() {
    let src = r#"import std

R greet name
  Text > Text

  std.concat (Text "Hello, ") name

F main
  Text "name? "
  std.print
  std.readText
  greet
  std.printLine
  std.readText
  std.printLine
"#;
    let (code, stdout, stderr) =
        run_with_input("run", &[("main.tcrf", src)], &["Ada\r", "second"]);
    assert_eq!(code, 0, "stderr: {}", stderr);
    assert_eq!(stdout, "name? Hello, Ada\nsecond\n");
}

#[test]
fn project_read_text_at_end_is_error() {
    let src = "import std\n\nF main\n  std.readText\n  std.printLine\n";
    let (code, _, stderr) = run_with_input("run", &[("main.tcrf", src)], &[]);
    assert_eq!(code, 1);
    assert!(stderr.contains("終端"), "stderr: {}", stderr);
}

#[test]
fn project_parse_int_reads_back_int_text() {
    let src = r#"import std

R roundTrip x
  Int > Int ! Error

  std.parseInt (std.int x)

R show x
  Int > Text

  std.int x

C start = -9223372036854775807

F main
  start
  roundTrip
  show
  std.printLine
"#;
    let (code, stdout, stderr) = run_project("run", "roundtrip", &[("main.tcrf", src)]);
    assert_eq!(code, 0, "stderr: {}", stderr);
    assert_eq!(stdout, "-9223372036854775807\n");
}

#[test]
fn a_flow_step_of_an_imported_rule_checks_its_input() {
    let main = "import lib\n\nF main\n  Text \"a\"\n  lib.double\n";
    let lib = "R double x\n  Int > Int\n\n  x * 2\n";
    let (diags, _, _) = compile(&[("main.tcrf", main), ("lib.tcrf", lib)]);
    assert!(diags.items.iter().any(|i| i.code.as_str() == "E402"), "{}", diags.len());
}
