//! Loading modules: the entry file and, recursively, the files it imports.
//!
//! `import a.b` names the file `a/b.tcrf`. The names `std` and `std.xxx` are
//! reserved: they are never searched for, and importing one loads the
//! standard library declaration file std.tcrf. A module's identity is its
//! canonical file path, so each file is loaded once; importing a module that
//! is still being loaded is a cycle (E309).
//!
//! Finding and reading files is left to the caller: a `Loader` says which
//! file it needs next (`LoadRequest`) and is handed what was found
//! (`LoadReply`), until it needs nothing more.
use crate::ast::Program;
use crate::builtins::module_from_path;
use crate::diagnostics::{codes, keeps, lemma_prefix_keeps, Diagnostics};
use crate::lexer;
use crate::parser;
use crate::span::{SourceFile, Span};
use crate::text::{byte_len, byte_len_fits};
use crate::text_fmt::{cat2, cat3, join_with, str_eq};
use crate::types::{find, ModuleRef};
use vstd::prelude::*;
use vstd::string::*;

verus! {

/// The built-in copy of the standard library declaration file std.tcrf.
pub const STD_DECL_SRC: &'static str = r#"# TCRF 標準ライブラリ宣言ファイル
# 各 R は本体のない宣言 (名前・引数名・型シグネチャ) で、
# 直前のコメントが処理本体の状態を示す。

# ビルトイン実装
R print text
  Text > Void

# ビルトイン実装
R printLine text
  Text > Void

# ビルトイン実装
R readText
  Void > Text ! Error

# ビルトイン実装
R debug value
  A > Void

# ビルトイン実装
R isEmpty values
  List<A> > Bool

# ビルトイン実装
R first values
  List<A> > A ! Error

# ビルトイン実装
R rest values
  List<A> > List<A> ! Error

# ビルトイン実装
R prepend value values
  A, List<A> > List<A>

# ビルトイン実装
R length values
  List<A> > Int

# ビルトイン実装
R reverse values
  List<A> > List<A>

# ビルトイン実装
R append left right
  List<A>, List<A> > List<A>

# ビルトイン実装
R contains value values
  A, List<A> > Bool

# ビルトイン実装
R sumInt values
  List<Int> > Int

# ビルトイン実装
R sumDecimal values
  List<Decimal> > Decimal

# ビルトイン実装
R inclusive range
  RangeInput > List<Int> ! Error

# ビルトイン実装
R exclusive range
  RangeInput > List<Int> ! Error

# ビルトイン実装
R int value
  Int > Text

# ビルトイン実装
R decimal value
  Decimal > Text

# ビルトイン実装
R bool value
  Bool > Text

# ビルトイン実装
R intList values
  List<Int> > Text

# ビルトイン実装
R decimalList values
  List<Decimal> > Text

# ビルトイン実装
R textList values
  List<Text> > Text

# ビルトイン実装
R textLength text
  Text > Int

# ビルトイン実装
R trim text
  Text > Text

# ビルトイン実装
R lower text
  Text > Text

# ビルトイン実装
R upper text
  Text > Text

# ビルトイン実装
R concat left right
  Text, Text > Text

# ビルトイン実装
R textContains text part
  Text, Text > Bool

# ビルトイン実装
R parseInt text
  Text > Int ! Error

# ビルトイン実装
R parseDecimal text
  Text > Decimal ! Error

# ビルトイン実装
R toDecimal value
  Int > Decimal

# ビルトイン実装
R floor value
  Decimal > Int

# ビルトイン実装
R round value
  Decimal > Int

# ビルトイン実装
R absInt value
  Int > Int

# ビルトイン実装
R absDecimal value
  Decimal > Decimal

# ビルトイン実装
R require condition
  Bool > Void ! Error

# ビルトイン実装
R requireNotEmpty values
  List<A> > List<A> ! Error

# 未実装
R sort values
  List<A> > List<A>
"#;

/// The name under which the built-in std.tcrf is shown.
pub const STD_BUILTIN_NAME: &'static str = "std.tcrf (内蔵)";

/// One loaded file (= one module).
pub struct ModuleUnit {
    /// The dotted module name; empty for the entry file
    pub name: String,
    pub file: SourceFile,
    pub program: Program,
    /// The targets of `program.imports`, in the same order; `None` when an
    /// import could not be resolved (already reported)
    pub import_targets: Vec<Option<ModuleRef>>,
    /// Is this the standard library declaration file std.tcrf
    pub is_std: bool,
}

/// The laws of a finished load: the entry is unit 0 and not std.tcrf; `order`
/// lists every unit but std.tcrf exactly once, ends with the entry, and puts
/// every module a unit imports before that unit.
pub open spec fn in_dependency_order(l: &Loaded) -> bool {
    &&& l.units@.len() >= 1
    &&& !l.units@[0].is_std
    &&& l.order@.len() >= 1
    &&& l.order@.last() == 0
    &&& forall|p: int, q: int| 0 <= p < q < l.order@.len() ==> #[trigger] l.order@[p] != #[trigger] l.order@[q]
    &&& forall|u: usize| u < l.units@.len() ==> (l.order@.contains(u) <==> l.std_unit != Some(u))
    &&& forall|p: int| 0 <= p < l.order@.len() ==> #[trigger] l.order@[p] < l.units@.len()
    &&& l.std_unit matches Some(s) ==> s < l.units@.len() && l.units@[s as int].is_std
    &&& forall|p: int|
        0 <= p < l.order@.len() ==> #[trigger] l.units@[l.order@[p] as int].import_targets@.len()
            == l.units@[l.order@[p] as int].program.imports@.len()
    &&& forall|p: int, j: int|
        0 <= p < l.order@.len() && 0 <= j < l.units@[l.order@[p] as int].import_targets@.len()
            ==> (#[trigger] l.units@[l.order@[p] as int].import_targets@[j] matches Some(ModuleRef::User(t))
            ==> exists|q: int| 0 <= q < p && l.order@[q] == t)
}

pub struct Loaded {
    /// In discovery order; `units[0]` is the entry. Diagnostic file numbers follow this order.
    pub units: Vec<ModuleUnit>,
    /// Dependency order (dependencies first), ending with the entry (0);
    /// the std.tcrf unit is not included
    pub order: Vec<usize>,
    /// The std.tcrf unit (only when std is imported)
    pub std_unit: Option<usize>,
}

/// A file the loader needs next.
#[derive(Debug)]
pub enum LoadRequest {
    /// The standard library declaration file std.tcrf.
    StdSource,
    /// The file of the user module `path` (`a.b` is `a/b.tcrf`), imported by
    /// a file of the directory `dir`.
    ModuleFile { path: Vec<String>, dir: String },
}

/// What was found for a `LoadRequest`.
#[derive(Debug)]
pub enum LoadReply {
    /// The text of std.tcrf and the name it is shown under.
    StdSource { name: String, src: String },
    /// The module file: its canonical path (the module's identity), the name
    /// it is shown under, its directory, and its text or why it could not be read.
    Found { canonical: String, display: String, dir: String, src: Result<String, String> },
    /// No file; `searched` lists the paths that were tried.
    NotFound { searched: Vec<String> },
}

/// A module whose imports are being resolved.
struct Frame {
    id: usize,
    next: usize,
    total: usize,
    dir: String,
    targets: Vec<Option<ModuleRef>>,
}

/// Imports still to resolve on a stack of frames.
spec fn work(s: Seq<Frame>) -> nat
    decreases s.len(),
{
    if s.len() == 0 {
        0
    } else {
        work(s.drop_last()) + (s.last().total - s.last().next) as nat
    }
}

/// Loads the entry file and the modules it imports, depth first.
pub struct Loader {
    units: Vec<ModuleUnit>,
    order: Vec<usize>,
    /// canonical path → unit number
    by_path: Vec<(String, usize)>,
    /// the modules being loaded, innermost last
    stack: Vec<Frame>,
    std_unit: Option<usize>,
    /// a request is out, and the innermost frame's next import awaits its reply
    waiting: bool,
}

impl Loader {
    pub closed spec fn inv(&self) -> bool {
        &&& forall|k: int|
            0 <= k < self.stack@.len() ==> {
                let f = #[trigger] self.stack@[k];
                &&& f.id < self.units@.len()
                &&& f.total == self.units@[f.id as int].program.imports@.len()
                &&& f.next <= f.total
                &&& f.targets@.len() == f.next
                &&& self.std_unit != Some(f.id)
            }
        &&& self.waiting ==> self.stack@.len() > 0 && self.stack@.last().next
            < self.stack@.last().total
        &&& self.std_unit matches Some(i) ==> i < self.units@.len() && self.units@[i as int].is_std
        &&& self.partition()
        &&& self.deps()
    }

    /// Unit 0 is the entry; every unit but std.tcrf is either done (in
    /// `order`, once) or being loaded (on the stack, once), and the entry is
    /// the bottom frame until it is done, last.
    spec fn partition(&self) -> bool {
        &&& self.units@.len() >= 1
        &&& !self.units@[0].is_std
        &&& self.stack@.len() > 0 ==> self.stack@[0].id == 0
        &&& self.stack@.len() == 0 ==> self.order@.len() > 0 && self.order@.last() == 0
        &&& forall|a: int, b: int| 0 <= a < b < self.stack@.len() ==> #[trigger] self.stack@[a].id != #[trigger] self.stack@[b].id
        &&& forall|p: int, q: int| 0 <= p < q < self.order@.len() ==> #[trigger] self.order@[p] != #[trigger] self.order@[q]
        &&& forall|p: int| 0 <= p < self.order@.len() ==> #[trigger] self.order@[p] < self.units@.len()
            && self.std_unit != Some(self.order@[p])
        &&& forall|p: int, k: int| 0 <= p < self.order@.len() && 0 <= k < self.stack@.len() ==> #[trigger] self.order@[p]
            != #[trigger] self.stack@[k].id
        &&& forall|u: usize| u < self.units@.len() ==> self.std_unit == Some(u) || #[trigger] self.order@.contains(u) || self.active(u)
        &&& forall|i: int| 0 <= i < self.by_path@.len() ==> (#[trigger] self.by_path@[i]).1 < self.units@.len()
            && self.std_unit != Some(self.by_path@[i].1)
    }

    /// `u` is being loaded.
    spec fn active(&self, u: usize) -> bool {
        exists|k: int| 0 <= k < self.stack@.len() && (#[trigger] self.stack@[k]).id == u
    }

    /// Every module a done unit imports is done before it; a frame's imports
    /// are done, but for its last one, which may be the frame above it.
    spec fn deps(&self) -> bool {
        &&& forall|p: int|
            0 <= p < self.order@.len() ==> #[trigger] self.units@[self.order@[p] as int].import_targets@.len()
                == self.units@[self.order@[p] as int].program.imports@.len()
        &&& forall|k: int, j: int|
            0 <= k < self.stack@.len() && 0 <= j < self.stack@[k].targets@.len() ==> (
            #[trigger] self.stack@[k].targets@[j] matches Some(ModuleRef::User(t)) ==> self.order@.contains(t) || (k + 1
                < self.stack@.len() && j + 1 == self.stack@[k].targets@.len() && t == self.stack@[k + 1].id))
        &&& forall|p: int, j: int|
            0 <= p < self.order@.len() && 0 <= j < self.units@[self.order@[p] as int].import_targets@.len()
                ==> (#[trigger] self.units@[self.order@[p] as int].import_targets@[j] matches Some(ModuleRef::User(t))
                ==> exists|q: int| 0 <= q < p && self.order@[q] == t)
    }

    /// The entry file, as it was read.
    pub closed spec fn entry_file(&self) -> SourceFile {
        self.units@[0].file
    }

    /// The module name of the entry unit.
    pub closed spec fn entry_name(&self) -> Seq<char> {
        self.units@[0].name@
    }

    /// Is a request out that awaits its reply.
    pub closed spec fn is_waiting(&self) -> bool {
        self.waiting
    }

    /// Is all loading done.
    pub closed spec fn is_done(&self) -> bool {
        self.stack@.len() == 0
    }

    /// How much is left to do: it shrinks with every reply that loads no new module.
    pub closed spec fn measure(&self) -> nat {
        work(self.stack@) + self.stack@.len()
    }

    proof fn lemma_advance(s: Seq<Frame>, idx: int, f: Frame)
        requires
            0 <= idx < s.len(),
            f.total == s[idx].total,
            f.next == s[idx].next + 1,
            s[idx].next < s[idx].total,
        ensures
            work(s.update(idx, f)) + 1 == work(s),
        decreases s.len(),
    {
        if idx == s.len() - 1 {
            assert(s.update(idx, f).drop_last() =~= s.drop_last());
        } else {
            assert(s.update(idx, f).drop_last() =~= s.drop_last().update(idx, f));
            Loader::lemma_advance(s.drop_last(), idx, f);
        }
    }

    /// Parses a source text into a unit; a text too long for 32-bit offsets
    /// is reported (E304) and read as empty.
    fn parse_unit(name: String, display: &str, src: &str, is_std: bool, diags: &mut Diagnostics) -> (u: ModuleUnit)
        ensures
            u.is_std == is_std,
            u.name == name,
            u.import_targets@.len() == 0,
            u.file.file_name() == display@,
            byte_len(src@) < u32::MAX ==> u.file.text() == src@,
            final(diags).file() == old(diags).file(),
            keeps(old(diags).all(), final(diags).all()),
    {
        let text = if byte_len_fits(src) {
            String::from_str(src)
        } else {
            diags.emit(
                codes::RESOLVE_MODULE_NOT_FOUND,
                Span::new(0, 0),
                cat2(display, " は大きすぎて読み込めません"),
            );
            proof {
                reveal_strlit("");
            }
            String::from_str("")
        };
        proof {
            reveal_strlit("");
        }
        let file = SourceFile::new(display, text.as_str());
        let ghost d0 = diags.all();
        let tokens = lexer::lex(&file, diags);
        proof {
            lemma_prefix_keeps(d0, diags.all());
        }
        let ghost d1 = diags.all();
        let program = parser::parse(tokens, diags);
        proof {
            lemma_prefix_keeps(d1, diags.all());
        }
        ModuleUnit { name, file, program, import_targets: Vec::new(), is_std }
    }

    /// Starts loading with the entry file: its name, text, directory and
    /// canonical path (when it has one).
    pub fn start(name: &str, src: &str, dir: &str, canonical: Option<String>, diags: &mut Diagnostics) -> (ld: Loader)
        ensures
            ld.inv(),
            !ld.is_waiting(),
            ld.entry_file().file_name() == name@,
            ld.entry_name() == Seq::<char>::empty(),
            byte_len(src@) < u32::MAX ==> ld.entry_file().text() == src@,
            keeps(old(diags).all(), final(diags).all()),
    {
        let mut by_path: Vec<(String, usize)> = Vec::new();
        if let Some(c) = canonical {
            by_path.push((c, 0));
        }
        assert(forall|i: int| 0 <= i < by_path@.len() ==> (#[trigger] by_path@[i]).1 == 0);
        diags.set_file(0);
        let unit = Loader::parse_unit(String::new(), name, src, false, diags);
        let total = unit.program.imports.len();
        let mut units: Vec<ModuleUnit> = Vec::new();
        units.push(unit);
        let mut stack: Vec<Frame> = Vec::new();
        stack.push(Frame { id: 0, next: 0, total, dir: String::from_str(dir), targets: Vec::new() });
        let ld = Loader { units, order: Vec::new(), by_path, stack, std_unit: None, waiting: false };
        proof {
            assert forall|u: usize| u < ld.units@.len() implies ld.std_unit == Some(u) || #[trigger] ld.order@.contains(u)
                || ld.active(u) by {
                assert(ld.stack@[0].id == u);
            }
        }
        ld
    }

    /// Resolves imports until a file is needed (the request) or all is done (`None`).
    pub fn next(&mut self, diags: &mut Diagnostics) -> (r: Option<LoadRequest>)
        requires
            old(self).inv(),
            !old(self).is_waiting(),
        ensures
            final(self).inv(),
            r is None ==> final(self).is_done() && !final(self).is_waiting(),
            r is Some ==> final(self).is_waiting(),
            final(self).measure() <= old(self).measure(),
            final(self).entry_file() == old(self).entry_file(),
            final(self).entry_name() == old(self).entry_name(),
            keeps(old(diags).all(), final(diags).all()),
    {
        while self.stack.len() > 0
            invariant
                self.inv(),
                !self.waiting,
                self.units@[0].file == old(self).units@[0].file,
                self.units@[0].name == old(self).units@[0].name,
                self.measure() <= old(self).measure(),
                keeps(old(diags).all(), diags.all()),
            decreases self.measure(),
        {
            let top = self.stack.len() - 1;
            let id = self.stack[top].id;
            let k = self.stack[top].next;
            if k < self.stack[top].total {
                let path = &self.units[id].program.imports[k].path;
                let is_std = path.len() > 0 && str_eq(path[0].as_str(), "std");
                if !is_std {
                    let req = LoadRequest::ModuleFile {
                        path: path.clone(),
                        dir: self.stack[top].dir.clone(),
                    };
                    self.waiting = true;
                    return Some(req);
                }
                let target = match module_from_path(path.as_slice()) {
                    Some(m) => {
                        if self.std_unit.is_none() {
                            self.waiting = true;
                            return Some(LoadRequest::StdSource);
                        }
                        Some(ModuleRef::Std(m))
                    },
                    None => {
                        let shown = join_with(path, ".");
                        let span = self.units[id].program.imports[k].span;
                        diags.set_file(id);
                        diags.emit_with_hint(
                            codes::RESOLVE_MODULE_NOT_FOUND,
                            span,
                            cat3("モジュール `", shown.as_str(), "` が見つかりません"),
                            String::from_str(
                                "std 配下は組み込みで、std.console / std.list / std.range / std.format / std.text / std.number / std.validate があります",
                            ),
                        );
                        None
                    },
                };
                self.advance(target);
            } else {
                let ghost before = *self;
                let ghost s0 = self.stack@;
                let f = self.stack.pop().unwrap();
                proof {
                    assert(s0.drop_last() =~= self.stack@);
                }
                let ghost old_unit = self.units@[f.id as int];
                self.units[f.id].import_targets = f.targets;
                self.order.push(f.id);
                proof {
                    self.lemma_popped(before, s0.last(), old_unit);
                }
                if self.stack.len() > 0 {
                    let parent = self.stack[self.stack.len() - 1].id;
                    diags.set_file(parent);
                }
            }
        }
        None
    }

    /// Records the target of the innermost frame's next import and moves on.
    fn advance(&mut self, target: Option<ModuleRef>)
        requires
            old(self).inv(),
            old(self).stack@.len() > 0,
            old(self).stack@.last().next < old(self).stack@.last().total,
            !old(self).waiting,
            target matches Some(ModuleRef::User(t)) ==> old(self).order@.contains(t),
        ensures
            final(self).inv(),
            final(self).waiting == old(self).waiting,
            final(self).units@ == old(self).units@,
            final(self).order@ == old(self).order@,
            final(self).std_unit == old(self).std_unit,
            final(self).stack@.len() == old(self).stack@.len(),
            final(self).measure() + 1 == old(self).measure(),
    {
        let top = self.stack.len() - 1;
        self.advance_at(top, target);
    }

    /// Records the target of frame `idx`'s next import and moves it on.
    fn advance_at(&mut self, idx: usize, target: Option<ModuleRef>)
        requires
            old(self).inv(),
            idx < old(self).stack@.len(),
            old(self).stack@[idx as int].next < old(self).stack@[idx as int].total,
            !old(self).waiting,
            target matches Some(ModuleRef::User(t)) ==> old(self).order@.contains(t) || (idx + 1
                < old(self).stack@.len() && t == old(self).stack@[idx + 1].id),
            idx + 1 < old(self).stack@.len() ==> forall|j: int|
                0 <= j < old(self).stack@[idx as int].targets@.len() ==> (
                #[trigger] old(self).stack@[idx as int].targets@[j] matches Some(ModuleRef::User(t))
                    ==> old(self).order@.contains(t)),
        ensures
            final(self).inv(),
            final(self).waiting == old(self).waiting,
            final(self).units@ == old(self).units@,
            final(self).order@ == old(self).order@,
            final(self).std_unit == old(self).std_unit,
            final(self).stack@.len() == old(self).stack@.len(),
            forall|k: int| 0 <= k < final(self).stack@.len() ==> #[trigger] final(self).stack@[k].id == old(self).stack@[k].id,
            final(self).measure() + 1 == old(self).measure(),
    {
        let ghost s0 = self.stack@;
        self.stack[idx].targets.push(target);
        let k = self.stack[idx].next;
        self.stack[idx].next = k + 1;
        proof {
            Loader::lemma_advance(s0, idx as int, self.stack@[idx as int]);
            assert(self.stack@ =~= s0.update(idx as int, self.stack@[idx as int]));
            assert forall|u: usize| u < self.units@.len() implies self.std_unit == Some(u) || #[trigger] self.order@.contains(u)
                || self.active(u) by {
                if old(self).active(u) {
                    let k = choose|k: int| 0 <= k < s0.len() && (#[trigger] s0[k]).id == u;
                    assert(self.stack@[k].id == u);
                }
            }
            assert forall|a: int, b: int| 0 <= a < b < self.stack@.len() implies #[trigger] self.stack@[a].id != #[trigger] self.stack@[b].id by {
                assert(s0[a].id != s0[b].id);
            }
            assert forall|p: int, k: int| 0 <= p < self.order@.len() && 0 <= k < self.stack@.len() implies #[trigger] self.order@[p]
                != #[trigger] self.stack@[k].id by {
                assert(self.order@[p] != s0[k].id);
            }
            assert forall|k: int, j: int|
                0 <= k < self.stack@.len() && 0 <= j < self.stack@[k].targets@.len() implies (
                #[trigger] self.stack@[k].targets@[j] matches Some(ModuleRef::User(t)) ==> self.order@.contains(t) || (k + 1
                    < self.stack@.len() && j + 1 == self.stack@[k].targets@.len() && t == self.stack@[k + 1].id)) by {
                if k != idx {
                    assert(self.stack@[k] == s0[k]);
                } else if j < s0[k].targets@.len() {
                    assert(self.stack@[k].targets@[j] == s0[k].targets@[j]);
                }
            }
        }
    }

    /// Takes the reply to the last request.
    pub fn provide(&mut self, reply: LoadReply, diags: &mut Diagnostics)
        requires
            old(self).inv(),
            old(self).is_waiting(),
        ensures
            final(self).inv(),
            !final(self).is_waiting(),
            (reply is StdSource || reply is NotFound) ==> final(self).measure() < old(self).measure(),
            final(self).entry_file() == old(self).entry_file(),
            final(self).entry_name() == old(self).entry_name(),
            keeps(old(diags).all(), final(diags).all()),
    {
        self.waiting = false;
        let top = self.stack.len() - 1;
        let id = self.stack[top].id;
        let k = self.stack[top].next;
        let path = self.units[id].program.imports[k].path.clone();
        let span = self.units[id].program.imports[k].span;
        let is_std = path.len() > 0 && str_eq(path[0].as_str(), "std");
        let shown = join_with(&path, ".");
        if is_std {
            if self.std_unit.is_none() {
                let (name, src) = match reply {
                    LoadReply::StdSource { name, src } => (name, src),
                    _ => (String::from_str(STD_BUILTIN_NAME), String::from_str(STD_DECL_SRC)),
                };
                let sid = self.units.len();
                diags.set_file(sid);
                let unit = Loader::parse_unit(String::from_str("std"), name.as_str(), src.as_str(), true, diags);
                let ghost before = *self;
                self.units.push(unit);
                self.std_unit = Some(sid);
                proof {
                    self.lemma_std_added(before, sid);
                }
            }
            let target = match module_from_path(path.as_slice()) {
                Some(m) => Some(ModuleRef::Std(m)),
                None => None,
            };
            self.advance(target);
            return ;
        }
        match reply {
            LoadReply::Found { canonical, display, dir, src } => {
                if let Some(i) = find(&self.by_path, canonical.as_str()) {
                    let tid = self.by_path[i].1;
                    if self.is_active(tid) {
                        diags.set_file(id);
                        diags.emit_with_hint(
                            codes::RESOLVE_IMPORT_CYCLE,
                            span,
                            cat3("モジュール `", shown.as_str(), "` の import が循環しています"),
                            String::from_str("モジュール間の依存は一方向にしてください"),
                        );
                        self.advance(None);
                    } else {
                        self.advance(Some(ModuleRef::User(tid)));
                    }
                    return ;
                }
                match src {
                    Err(e) => {
                        diags.set_file(id);
                        let mut m = cat3("モジュール `", shown.as_str(), "` (");
                        m.append(display.as_str());
                        m.append(") を読み込めません: ");
                        m.append(e.as_str());
                        diags.emit(codes::RESOLVE_MODULE_NOT_FOUND, span, m);
                        self.advance(None);
                    },
                    Ok(text) => {
                        let nid = self.units.len();
                        diags.set_file(nid);
                        let unit = Loader::parse_unit(shown, display.as_str(), text.as_str(), false, diags);
                        let total = unit.program.imports.len();
                        let parent = self.stack.len() - 1;
                        let ghost before = *self;
                        proof {
                            assert forall|j: int| 0 <= j < before.stack@[parent as int].targets@.len() implies (
                                #[trigger] before.stack@[parent as int].targets@[j] matches Some(ModuleRef::User(t))
                                    ==> before.order@.contains(t)) by {
                                assert(before.stack@[parent as int].targets@[j] == before.stack@[parent as int].targets@[j]);
                            }
                        }
                        self.units.push(unit);
                        self.by_path.push((canonical, nid));
                        self.stack.push(Frame { id: nid, next: 0, total, dir, targets: Vec::new() });
                        proof {
                            self.lemma_grown(before, nid);
                        }
                        self.advance_at(parent, Some(ModuleRef::User(nid)));
                    },
                }
            },
            LoadReply::NotFound { searched } => {
                diags.set_file(id);
                let listed = join_with(&searched, ", ");
                diags.emit_with_hint(
                    codes::RESOLVE_MODULE_NOT_FOUND,
                    span,
                    cat3("モジュール `", shown.as_str(), "` が見つかりません"),
                    cat2("探索したパス: ", listed.as_str()),
                );
                self.advance(None);
            },
            LoadReply::StdSource { .. } => {
                diags.set_file(id);
                diags.emit(
                    codes::RESOLVE_MODULE_NOT_FOUND,
                    span,
                    cat3("モジュール `", shown.as_str(), "` が見つかりません"),
                );
                self.advance(None);
            },
        }
    }

    /// Finishing the innermost frame keeps the invariant: its unit gets its
    /// import targets and joins `order`.
    proof fn lemma_popped(&self, before: Loader, f: Frame, old_unit: ModuleUnit)
        requires
            before.inv(),
            !before.waiting,
            !self.waiting,
            before.stack@.len() > 0,
            f == before.stack@.last(),
            f.next >= f.total,
            self.stack@ == before.stack@.drop_last(),
            old_unit == before.units@[f.id as int],
            self.units@ == before.units@.update(f.id as int, ModuleUnit { import_targets: f.targets, ..old_unit }),
            self.order@ == before.order@.push(f.id),
            self.std_unit == before.std_unit,
            self.by_path@ == before.by_path@,
        ensures
            self.inv(),
    {
        let n = self.stack@.len() as int;
        let m = before.order@.len() as int;
        assert(before.stack@[n] == f);
        assert forall|p: int| 0 <= p < self.order@.len() implies #[trigger] self.units@[self.order@[p] as int].import_targets@.len()
            == self.units@[self.order@[p] as int].program.imports@.len() by {
            if p < m {
                assert(self.order@[p] == before.order@[p]);
                assert(before.order@[p] != before.stack@[n].id);
                assert(before.units@[before.order@[p] as int].import_targets@.len()
                    == before.units@[before.order@[p] as int].program.imports@.len());
            }
        }
        assert forall|k: int| 0 <= k < self.stack@.len() implies {
            let g = #[trigger] self.stack@[k];
            &&& g.id < self.units@.len()
            &&& g.total == self.units@[g.id as int].program.imports@.len()
            &&& g.next <= g.total
            &&& g.targets@.len() == g.next
            &&& self.std_unit != Some(g.id)
        } by {
            assert(self.stack@[k] == before.stack@[k]);
            assert(before.stack@[k].id != before.stack@[n].id);
        }
        assert forall|u: usize| u < self.units@.len() implies self.std_unit == Some(u) || #[trigger] self.order@.contains(u)
            || self.active(u) by {
            if u == f.id {
                assert(self.order@[m] == u);
            } else if before.order@.contains(u) {
                let p = choose|p: int| 0 <= p < m && before.order@[p] == u;
                assert(self.order@[p] == u);
            } else if before.active(u) {
                let k = choose|k: int| 0 <= k < before.stack@.len() && (#[trigger] before.stack@[k]).id == u;
                assert(k < n);
                assert(self.stack@[k].id == u);
            }
        }
        assert forall|p: int, q: int| 0 <= p < q < self.order@.len() implies #[trigger] self.order@[p]
            != #[trigger] self.order@[q] by {
            if q == m {
                assert(before.order@[p] != before.stack@[n].id);
            } else {
                assert(before.order@[p] != before.order@[q]);
            }
        }
        assert forall|p: int, k: int| 0 <= p < self.order@.len() && 0 <= k < self.stack@.len() implies #[trigger] self.order@[p]
            != #[trigger] self.stack@[k].id by {
            assert(self.stack@[k] == before.stack@[k]);
            if p == m {
                assert(before.stack@[k].id != before.stack@[n].id);
            } else {
                assert(before.order@[p] != before.stack@[k].id);
            }
        }
        assert forall|p: int| 0 <= p < self.order@.len() implies #[trigger] self.order@[p] < self.units@.len()
            && self.std_unit != Some(self.order@[p]) by {
            if p < m {
                assert(self.order@[p] == before.order@[p]);
            }
        }
        assert forall|k: int, j: int|
            0 <= k < self.stack@.len() && 0 <= j < self.stack@[k].targets@.len() implies (
            #[trigger] self.stack@[k].targets@[j] matches Some(ModuleRef::User(t)) ==> self.order@.contains(t) || (k + 1
                < self.stack@.len() && j + 1 == self.stack@[k].targets@.len() && t == self.stack@[k + 1].id)) by {
            assert(self.stack@[k] == before.stack@[k]);
            if let Some(ModuleRef::User(t)) = self.stack@[k].targets@[j] {
                if before.order@.contains(t) {
                    let p = choose|p: int| 0 <= p < m && before.order@[p] == t;
                    assert(self.order@[p] == t);
                } else if k + 1 == n {
                    assert(t == before.stack@[n].id);
                    assert(self.order@[m] == t);
                } else {
                    assert(self.stack@[k + 1] == before.stack@[k + 1]);
                }
            }
        }
        assert forall|p: int, j: int|
            0 <= p < self.order@.len() && 0 <= j < self.units@[self.order@[p] as int].import_targets@.len()
                implies (#[trigger] self.units@[self.order@[p] as int].import_targets@[j] matches Some(ModuleRef::User(t))
                ==> exists|q: int| 0 <= q < p && self.order@[q] == t) by {
            if p == m {
                assert(self.units@[f.id as int].import_targets@ == f.targets@);
                if let Some(ModuleRef::User(t)) = f.targets@[j] {
                    assert(before.stack@[n].targets@[j] == f.targets@[j]);
                    assert(before.order@.contains(t));
                    let q = choose|q: int| 0 <= q < m && before.order@[q] == t;
                    assert(self.order@[q] == t);
                }
            } else {
                assert(before.order@[p] != f.id);
                assert(self.units@[self.order@[p] as int] == before.units@[before.order@[p] as int]);
                if let Some(ModuleRef::User(t)) = self.units@[self.order@[p] as int].import_targets@[j] {
                    let q = choose|q: int| 0 <= q < p && before.order@[q] == t;
                    assert(self.order@[q] == t);
                }
            }
        }
        if let Some(i) = self.std_unit {
            assert(i != f.id);
            assert(self.units@[i as int] == before.units@[i as int]);
        }
        if f.id != 0 {
            assert(self.units@[0] == before.units@[0]);
            assert(n > 0);
            assert(self.stack@[0] == before.stack@[0]);
        } else {
            assert(self.units@[0].is_std == before.units@[0].is_std);
            if n > 0 {
                assert(before.stack@[0].id != before.stack@[n].id);
            }
        }
    }

    /// Adding the std.tcrf unit keeps the invariant.
    proof fn lemma_std_added(&self, before: Loader, sid: usize)
        requires
            before.inv(),
            before.std_unit is None,
            self.waiting == before.waiting,
            sid == before.units@.len(),
            self.units@ == before.units@.push(self.units@[sid as int]),
            self.units@[sid as int].is_std,
            self.std_unit == Some(sid),
            self.stack@ == before.stack@,
            self.order@ == before.order@,
            self.by_path@ == before.by_path@,
        ensures
            self.inv(),
    {
        assert forall|p: int| 0 <= p < self.order@.len() implies #[trigger] self.units@[self.order@[p] as int].import_targets@.len()
            == self.units@[self.order@[p] as int].program.imports@.len() by {
            assert(self.units@[before.order@[p] as int] == before.units@[before.order@[p] as int]);
            assert(before.units@[before.order@[p] as int].import_targets@.len()
                == before.units@[before.order@[p] as int].program.imports@.len());
        }
        assert forall|k: int| 0 <= k < self.stack@.len() implies {
            let g = #[trigger] self.stack@[k];
            &&& g.id < self.units@.len()
            &&& g.total == self.units@[g.id as int].program.imports@.len()
            &&& g.next <= g.total
            &&& g.targets@.len() == g.next
            &&& self.std_unit != Some(g.id)
        } by {
            assert(self.units@[self.stack@[k].id as int] == before.units@[before.stack@[k].id as int]);
        }
        assert forall|u: usize| u < self.units@.len() implies self.std_unit == Some(u) || #[trigger] self.order@.contains(u)
            || self.active(u) by {
            if u < sid {
                if before.active(u) {
                    let k = choose|k: int| 0 <= k < before.stack@.len() && (#[trigger] before.stack@[k]).id == u;
                    assert(self.stack@[k].id == u);
                }
            }
        }
        assert forall|p: int, j: int|
            0 <= p < self.order@.len() && 0 <= j < self.units@[self.order@[p] as int].import_targets@.len()
                implies (#[trigger] self.units@[self.order@[p] as int].import_targets@[j] matches Some(ModuleRef::User(t))
                ==> exists|q: int| 0 <= q < p && self.order@[q] == t) by {
            assert(self.units@[self.order@[p] as int] == before.units@[before.order@[p] as int]);
        }
        assert(self.units@[0] == before.units@[0]);
        assert forall|k: int, j: int|
            0 <= k < self.stack@.len() && 0 <= j < self.stack@[k].targets@.len() implies (
            #[trigger] self.stack@[k].targets@[j] matches Some(ModuleRef::User(t)) ==> self.order@.contains(t) || (k + 1
                < self.stack@.len() && j + 1 == self.stack@[k].targets@.len() && t == self.stack@[k + 1].id)) by {
            assert(self.stack@[k].targets@[j] == before.stack@[k].targets@[j]);
        }
    }

    /// Loading a new unit as a new innermost frame keeps the invariant.
    proof fn lemma_grown(&self, before: Loader, nid: usize)
        requires
            before.inv(),
            !before.waiting,
            !self.waiting,
            before.stack@.len() > 0,
            nid == before.units@.len(),
            self.units@ == before.units@.push(self.units@[nid as int]),
            !self.units@[nid as int].is_std,
            self.by_path@ == before.by_path@.push((self.by_path@.last().0, nid)),
            self.order@ == before.order@,
            self.std_unit == before.std_unit,
            self.stack@.len() == before.stack@.len() + 1,
            forall|k: int| 0 <= k < before.stack@.len() ==> #[trigger] self.stack@[k] == before.stack@[k],
            self.stack@.last().id == nid,
            self.stack@.last().next == 0,
            self.stack@.last().total == self.units@[nid as int].program.imports@.len(),
            self.stack@.last().targets@.len() == 0,
        ensures
            self.inv(),
    {
        assert forall|p: int| 0 <= p < self.order@.len() implies #[trigger] self.units@[self.order@[p] as int].import_targets@.len()
            == self.units@[self.order@[p] as int].program.imports@.len() by {
            assert(self.units@[before.order@[p] as int] == before.units@[before.order@[p] as int]);
            assert(before.units@[before.order@[p] as int].import_targets@.len()
                == before.units@[before.order@[p] as int].program.imports@.len());
        }
        let n = before.stack@.len() as int;
        assert forall|k: int| 0 <= k < self.stack@.len() implies {
            let f = #[trigger] self.stack@[k];
            &&& f.id < self.units@.len()
            &&& f.total == self.units@[f.id as int].program.imports@.len()
            &&& f.next <= f.total
            &&& f.targets@.len() == f.next
            &&& self.std_unit != Some(f.id)
        } by {
            if k < n {
                assert(self.stack@[k] == before.stack@[k]);
            }
        }
        assert forall|u: usize| u < self.units@.len() implies self.std_unit == Some(u) || #[trigger] self.order@.contains(u)
            || self.active(u) by {
            if u == nid {
                assert(self.stack@[n].id == u);
            } else if before.active(u) {
                let k = choose|k: int| 0 <= k < before.stack@.len() && (#[trigger] before.stack@[k]).id == u;
                assert(self.stack@[k].id == u);
            }
        }
        assert forall|a: int, b: int| 0 <= a < b < self.stack@.len() implies #[trigger] self.stack@[a].id
            != #[trigger] self.stack@[b].id by {
            if b < n {
                assert(before.stack@[a].id != before.stack@[b].id);
            } else {
                assert(self.stack@[a] == before.stack@[a]);
            }
        }
        assert forall|p: int, k: int| 0 <= p < self.order@.len() && 0 <= k < self.stack@.len() implies #[trigger] self.order@[p]
            != #[trigger] self.stack@[k].id by {
            if k < n {
                assert(before.order@[p] != before.stack@[k].id);
            } else {
                assert(before.order@[p] < before.units@.len());
            }
        }
        assert forall|i: int| 0 <= i < self.by_path@.len() implies (#[trigger] self.by_path@[i]).1 < self.units@.len()
            && self.std_unit != Some(self.by_path@[i].1) by {
            if i < before.by_path@.len() {
                assert(self.by_path@[i] == before.by_path@[i]);
            }
        }
        assert forall|k: int, j: int|
            0 <= k < self.stack@.len() && 0 <= j < self.stack@[k].targets@.len() implies (
            #[trigger] self.stack@[k].targets@[j] matches Some(ModuleRef::User(t)) ==> self.order@.contains(t) || (k + 1
                < self.stack@.len() && j + 1 == self.stack@[k].targets@.len() && t == self.stack@[k + 1].id)) by {
            if k < n {
                assert(self.stack@[k] == before.stack@[k]);
                if k + 1 < n {
                    assert(self.stack@[k + 1] == before.stack@[k + 1]);
                }
            }
        }
        assert forall|p: int, j: int|
            0 <= p < self.order@.len() && 0 <= j < self.units@[self.order@[p] as int].import_targets@.len()
                implies (#[trigger] self.units@[self.order@[p] as int].import_targets@[j] matches Some(ModuleRef::User(t))
                ==> exists|q: int| 0 <= q < p && self.order@[q] == t) by {
            assert(before.order@[p] < before.units@.len());
            assert(self.units@[self.order@[p] as int] == before.units@[before.order@[p] as int]);
        }
        if let Some(i) = self.std_unit {
            assert(self.units@[i as int] == before.units@[i as int]);
        }
        assert(self.units@[0] == before.units@[0]);
        assert(self.stack@[0] == before.stack@[0]);
    }

    /// Is the unit `tid` still being loaded.
    fn is_active(&self, tid: usize) -> (b: bool)
        ensures
            b == self.active(tid),
    {
        let mut k: usize = 0;
        while k < self.stack.len()
            invariant
                k <= self.stack@.len(),
                forall|i: int| 0 <= i < k ==> (#[trigger] self.stack@[i]).id != tid,
            decreases self.stack@.len() - k,
        {
            if self.stack[k].id == tid {
                return true;
            }
            k = k + 1;
        }
        false
    }

    /// The loaded modules, once loading is done.
    pub fn finish(self) -> (l: Loaded)
        requires
            self.inv(),
            self.is_done(),
        ensures
            in_dependency_order(&l),
            l.units@[0].file == self.entry_file(),
            l.units@[0].name@ == self.entry_name(),
    {
        let l = Loaded { units: self.units, order: self.order, std_unit: self.std_unit };
        proof {
            assert forall|u: usize| u < l.units@.len() implies (l.order@.contains(u) <==> l.std_unit != Some(u)) by {
                if l.order@.contains(u) {
                    let p = choose|p: int| 0 <= p < l.order@.len() && l.order@[p] == u;
                    assert(self.order@[p] == u);
                }
            }
        }
        l
    }
}

/// Loads a source text held in memory as the entry file. Imports of std use
/// the built-in std.tcrf; with no file system at hand, a user module is
/// reported as not found (E304).
pub fn load_str(name: &str, src: &str, diags: &mut Diagnostics) -> (l: Loaded)
    ensures
        keeps(old(diags).all(), final(diags).all()),
        in_dependency_order(&l),
        l.units@[0].file.file_name() == name@,
        l.units@[0].name@ == Seq::<char>::empty(),
        byte_len(src@) < u32::MAX ==> l.units@[0].file.text() == src@,
{
    let mut ld = Loader::start(name, src, ".", None, diags);
    let ghost entry = ld.entry_file();
    loop
        invariant
            ld.inv(),
            !ld.is_waiting(),
            ld.entry_file() == entry,
            ld.entry_name() == Seq::<char>::empty(),
            keeps(old(diags).all(), diags.all()),
        ensures
            ld.inv(),
            ld.is_done(),
            ld.entry_file() == entry,
            ld.entry_name() == Seq::<char>::empty(),
            keeps(old(diags).all(), diags.all()),
        decreases ld.measure(),
    {
        match ld.next(diags) {
            None => break,
            Some(LoadRequest::StdSource) => {
                let reply = LoadReply::StdSource {
                    name: String::from_str(STD_BUILTIN_NAME),
                    src: String::from_str(STD_DECL_SRC),
                };
                ld.provide(reply, diags);
            },
            Some(LoadRequest::ModuleFile { path, dir }) => {
                let rel = join_with(&path, "/");
                let mut searched: Vec<String> = Vec::new();
                let mut p = cat3(dir.as_str(), "/", rel.as_str());
                p.append(".tcrf");
                searched.push(p);
                ld.provide(LoadReply::NotFound { searched }, diags);
            },
        }
    }
    ld.finish()
}

} // verus!

