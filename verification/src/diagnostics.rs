//! Compiler diagnostics: code, file, span, message and an optional hint.
use crate::span::{SourceFile, Span};
use crate::text::chars_of;
use crate::text_fmt::{cat2, digits, nat_text};
use vstd::prelude::*;
use vstd::string::*;

pub mod codes;

verus! {

/// A diagnostic code.
#[derive(Debug, Clone, Copy, PartialEq, Eq, Structural)]
pub enum Code {
    E101,
    E102,
    E103,
    E104,
    E105,
    E106,
    E107,
    E201,
    E202,
    E203,
    E204,
    E301,
    E302,
    E303,
    E304,
    E305,
    E306,
    E307,
    E308,
    E309,
    E310,
    E311,
    E312,
    E401,
    E402,
    E403,
    E404,
    E405,
    E406,
    E407,
    E408,
    E409,
    E410,
    E411,
    E412,
    E413,
    E414,
}

/// The text of a code, such as `E101`.
pub open spec fn code_text(c: Code) -> Seq<char> {
    match c {
        Code::E101 => "E101"@,
        Code::E102 => "E102"@,
        Code::E103 => "E103"@,
        Code::E104 => "E104"@,
        Code::E105 => "E105"@,
        Code::E106 => "E106"@,
        Code::E107 => "E107"@,
        Code::E201 => "E201"@,
        Code::E202 => "E202"@,
        Code::E203 => "E203"@,
        Code::E204 => "E204"@,
        Code::E301 => "E301"@,
        Code::E302 => "E302"@,
        Code::E303 => "E303"@,
        Code::E304 => "E304"@,
        Code::E305 => "E305"@,
        Code::E306 => "E306"@,
        Code::E307 => "E307"@,
        Code::E308 => "E308"@,
        Code::E309 => "E309"@,
        Code::E310 => "E310"@,
        Code::E311 => "E311"@,
        Code::E312 => "E312"@,
        Code::E401 => "E401"@,
        Code::E402 => "E402"@,
        Code::E403 => "E403"@,
        Code::E404 => "E404"@,
        Code::E405 => "E405"@,
        Code::E406 => "E406"@,
        Code::E407 => "E407"@,
        Code::E408 => "E408"@,
        Code::E409 => "E409"@,
        Code::E410 => "E410"@,
        Code::E411 => "E411"@,
        Code::E412 => "E412"@,
        Code::E413 => "E413"@,
        Code::E414 => "E414"@,
    }
}

impl Code {
    /// The code's text, such as `E101`.
    pub fn as_str(&self) -> (s: &'static str)
        ensures
            s@ == code_text(*self),
            s@.len() == 4,
            s@[0] == 'E',
    {
        match self {
            Code::E101 => {
                proof { reveal_strlit("E101"); }
                "E101"
            },
            Code::E102 => {
                proof { reveal_strlit("E102"); }
                "E102"
            },
            Code::E103 => {
                proof { reveal_strlit("E103"); }
                "E103"
            },
            Code::E104 => {
                proof { reveal_strlit("E104"); }
                "E104"
            },
            Code::E105 => {
                proof { reveal_strlit("E105"); }
                "E105"
            },
            Code::E106 => {
                proof { reveal_strlit("E106"); }
                "E106"
            },
            Code::E107 => {
                proof { reveal_strlit("E107"); }
                "E107"
            },
            Code::E201 => {
                proof { reveal_strlit("E201"); }
                "E201"
            },
            Code::E202 => {
                proof { reveal_strlit("E202"); }
                "E202"
            },
            Code::E203 => {
                proof { reveal_strlit("E203"); }
                "E203"
            },
            Code::E204 => {
                proof { reveal_strlit("E204"); }
                "E204"
            },
            Code::E301 => {
                proof { reveal_strlit("E301"); }
                "E301"
            },
            Code::E302 => {
                proof { reveal_strlit("E302"); }
                "E302"
            },
            Code::E303 => {
                proof { reveal_strlit("E303"); }
                "E303"
            },
            Code::E304 => {
                proof { reveal_strlit("E304"); }
                "E304"
            },
            Code::E305 => {
                proof { reveal_strlit("E305"); }
                "E305"
            },
            Code::E306 => {
                proof { reveal_strlit("E306"); }
                "E306"
            },
            Code::E307 => {
                proof { reveal_strlit("E307"); }
                "E307"
            },
            Code::E308 => {
                proof { reveal_strlit("E308"); }
                "E308"
            },
            Code::E309 => {
                proof { reveal_strlit("E309"); }
                "E309"
            },
            Code::E310 => {
                proof { reveal_strlit("E310"); }
                "E310"
            },
            Code::E311 => {
                proof { reveal_strlit("E311"); }
                "E311"
            },
            Code::E312 => {
                proof { reveal_strlit("E312"); }
                "E312"
            },
            Code::E401 => {
                proof { reveal_strlit("E401"); }
                "E401"
            },
            Code::E402 => {
                proof { reveal_strlit("E402"); }
                "E402"
            },
            Code::E403 => {
                proof { reveal_strlit("E403"); }
                "E403"
            },
            Code::E404 => {
                proof { reveal_strlit("E404"); }
                "E404"
            },
            Code::E405 => {
                proof { reveal_strlit("E405"); }
                "E405"
            },
            Code::E406 => {
                proof { reveal_strlit("E406"); }
                "E406"
            },
            Code::E407 => {
                proof { reveal_strlit("E407"); }
                "E407"
            },
            Code::E408 => {
                proof { reveal_strlit("E408"); }
                "E408"
            },
            Code::E409 => {
                proof { reveal_strlit("E409"); }
                "E409"
            },
            Code::E410 => {
                proof { reveal_strlit("E410"); }
                "E410"
            },
            Code::E411 => {
                proof { reveal_strlit("E411"); }
                "E411"
            },
            Code::E412 => {
                proof { reveal_strlit("E412"); }
                "E412"
            },
            Code::E413 => {
                proof { reveal_strlit("E413"); }
                "E413"
            },
            Code::E414 => {
                proof { reveal_strlit("E414"); }
                "E414"
            },
        }
    }
}

#[derive(Debug, Clone)]
pub struct Diagnostic {
    pub code: Code,
    /// The file (module unit number) the diagnostic belongs to.
    pub file: usize,
    pub span: Span,
    pub message: String,
    pub hint: Option<String>,
}

/// How many of the diagnostics have the code `c`.
pub open spec fn count_code(d: Seq<Diagnostic>, c: Code) -> nat
    decreases d.len(),
{
    if d.len() == 0 {
        0
    } else {
        count_code(d.drop_last(), c) + if d.last().code == c {
            1nat
        } else {
            0nat
        }
    }
}

/// One more diagnostic counts once more under its own code only.
pub proof fn lemma_count_push(d: Seq<Diagnostic>, x: Diagnostic, c: Code)
    ensures
        count_code(d.push(x), c) == count_code(d, c) + if x.code == c {
            1nat
        } else {
            0nat
        },
{
    assert(d.push(x).drop_last() =~= d);
}

/// The count over two sequences together is the sum of their counts.
pub proof fn lemma_count_concat(a: Seq<Diagnostic>, b: Seq<Diagnostic>, c: Code)
    ensures
        count_code(a + b, c) == count_code(a, c) + count_code(b, c),
    decreases b.len(),
{
    if b.len() == 0 {
        assert(a + b =~= a);
    } else {
        lemma_count_concat(a, b.drop_last(), c);
        assert((a + b).drop_last() =~= a + b.drop_last());
    }
}

/// Collects diagnostics; they are rendered together at the end.
pub struct Diagnostics {
    pub items: Vec<Diagnostic>,
    /// The file that new diagnostics are attributed to.
    pub current_file: usize,
}

impl Diagnostics {
    /// The collected diagnostics.
    pub open spec fn all(&self) -> Seq<Diagnostic> {
        self.items@
    }

    /// The file that new diagnostics are attributed to.
    pub open spec fn file(&self) -> usize {
        self.current_file
    }

    pub fn new() -> (d: Diagnostics)
        ensures
            d.all().len() == 0,
            d.file() == 0,
    {
        Diagnostics { items: Vec::new(), current_file: 0 }
    }

    /// Attributes later diagnostics to `file`.
    pub fn set_file(&mut self, file: usize)
        ensures
            final(self).all() == old(self).all(),
            final(self).file() == file,
    {
        self.current_file = file;
    }

    /// The file that new diagnostics are attributed to.
    pub fn current(&self) -> (f: usize)
        ensures
            f == self.file(),
    {
        self.current_file
    }

    pub fn emit(&mut self, code: Code, span: Span, message: String)
        ensures
            final(self).file() == old(self).file(),
            final(self).all() == old(self).all().push(
                Diagnostic { code, file: old(self).file(), span, message, hint: None },
            ),
            forall|c: Code| #[trigger] count_code(final(self).all(), c) == count_code(old(self).all(), c) + if c == code {
                1nat
            } else {
                0nat
            },
    {
        let ghost before = self.items@;
        self.items.push(Diagnostic { code, file: self.current_file, span, message, hint: None });
        proof {
            assert forall|c: Code| #[trigger] count_code(self.items@, c) == count_code(before, c) + if c == code {
                1nat
            } else {
                0nat
            } by {
                lemma_count_push(before, self.items@.last(), c);
                assert(self.items@ == before.push(self.items@.last()));
            }
        }
    }

    pub fn emit_with_hint(&mut self, code: Code, span: Span, message: String, hint: String)
        ensures
            final(self).file() == old(self).file(),
            final(self).all() == old(self).all().push(
                Diagnostic { code, file: old(self).file(), span, message, hint: Some(hint) },
            ),
            forall|c: Code| #[trigger] count_code(final(self).all(), c) == count_code(old(self).all(), c) + if c == code {
                1nat
            } else {
                0nat
            },
    {
        let ghost before = self.items@;
        self.items.push(
            Diagnostic { code, file: self.current_file, span, message, hint: Some(hint) },
        );
        proof {
            assert forall|c: Code| #[trigger] count_code(self.items@, c) == count_code(before, c) + if c == code {
                1nat
            } else {
                0nat
            } by {
                lemma_count_push(before, self.items@.last(), c);
                assert(self.items@ == before.push(self.items@.last()));
            }
        }
    }

    /// Drops the diagnostics collected after the first `n`.
    pub fn truncate(&mut self, n: usize)
        ensures
            final(self).file() == old(self).file(),
            n <= old(self).all().len() ==> final(self).all() == old(self).all().take(n as int),
            n > old(self).all().len() ==> final(self).all() == old(self).all(),
    {
        self.items.truncate(n);
    }

    /// Moves the diagnostics of `other` to the end of this collection.
    pub fn append(&mut self, other: Diagnostics)
        ensures
            final(self).file() == old(self).file(),
            final(self).all() == old(self).all() + other.all(),
    {
        let mut o = other.items;
        self.items.append(&mut o);
    }

    pub fn is_empty(&self) -> (b: bool)
        ensures
            b == (self.all().len() == 0),
    {
        self.items.len() == 0
    }

    pub fn len(&self) -> (n: usize)
        ensures
            n == self.all().len(),
    {
        self.items.len()
    }
}

/// `after` still holds every diagnostic of `before`, in place: diagnostics are
/// only ever added, never withdrawn or changed.
pub open spec fn keeps(before: Seq<Diagnostic>, after: Seq<Diagnostic>) -> bool {
    &&& before.len() <= after.len()
    &&& forall|i: int| 0 <= i < before.len() ==> #[trigger] after[i] == before[i]
}

/// A sequence that begins with `before` keeps it.
pub proof fn lemma_prefix_keeps(before: Seq<Diagnostic>, after: Seq<Diagnostic>)
    requires
        after.len() >= before.len(),
        after.take(before.len() as int) == before,
    ensures
        keeps(before, after),
{
    assert forall|i: int| 0 <= i < before.len() implies #[trigger] after[i] == before[i] by {
        assert(after.take(before.len() as int)[i] == after[i]);
    }
}

/// `after` is `before` with one diagnostic more: `code` at `span` in `file`,
/// with message `msg` and no hint.
pub open spec fn added_one(before: Seq<Diagnostic>, after: Seq<Diagnostic>, code: Code, file: usize, span: Span, msg: Seq<char>) -> bool {
    &&& after.len() == before.len() + 1
    &&& after.drop_last() == before
    &&& after.last().code == code
    &&& after.last().file == file
    &&& after.last().span == span
    &&& after.last().message@ == msg
    &&& after.last().hint is None
}

/// The diagnostics added after the first `from` all carry `code`.
pub open spec fn added_only(d: Seq<Diagnostic>, from: int, code: Code) -> bool {
    forall|i: int| from <= i < d.len() ==> (#[trigger] d[i]).code == code
}

/// `a` sorts no later than `b` by (file, start offset).
pub open spec fn key_le(a: Diagnostic, b: Diagnostic) -> bool {
    a.file < b.file || (a.file == b.file && a.span.start <= b.span.start)
}

/// Rendering order: by (file, start offset), ties kept in collection order.
pub open spec fn renders_before(d: Seq<Diagnostic>, i: int, j: int) -> bool {
    (key_le(d[i], d[j]) && !key_le(d[j], d[i])) || (key_le(d[i], d[j]) && key_le(d[j], d[i])
        && i < j)
}

/// `order` lists every diagnostic of `d` once, in rendering order.
pub open spec fn is_render_order(d: Seq<Diagnostic>, order: Seq<usize>) -> bool {
    &&& order.len() == d.len()
    &&& forall|x: int| 0 <= x < order.len() ==> #[trigger] order[x] < d.len()
    &&& forall|i: usize| i < d.len() ==> #[trigger] order.contains(i)
    &&& forall|x: int, y: int|
        0 <= x < y < order.len() ==> renders_before(d, #[trigger] order[x] as int, #[trigger] order[y] as int)
}

/// The file a diagnostic is shown against: `files[d.file]`, the first file
/// when that is out of range.
pub open spec fn file_of(files: Seq<&SourceFile>, d: Diagnostic) -> SourceFile {
    if d.file < files.len() {
        *files[d.file as int]
    } else {
        *files[0]
    }
}

/// The characters that put a caret under column `col` of `line`: one per
/// character before the column, a tab for a tab and a space otherwise.
pub open spec fn caret_pad(line: Seq<char>, col: int) -> Seq<char> {
    let n = if col - 1 < line.len() {
        col - 1
    } else {
        line.len() as int
    };
    Seq::new(n as nat, |i: int| if line[i] == '\t' { '\t' } else { ' ' })
}

/// The first line of a shown diagnostic: `file:line:col: error[Exxx]: message`.
pub open spec fn head_of(d: Diagnostic, name: Seq<char>, lc: (u32, u32)) -> Seq<char> {
    name + ":"@ + digits(lc.0 as nat) + ":"@ + digits(lc.1 as nat) + ": error["@ + code_text(d.code) + "]: "@
        + d.message@ + "\n"@
}

/// The hint line of a shown diagnostic, if it has a hint.
pub open spec fn hint_of(d: Diagnostic) -> Seq<char> {
    match d.hint {
        Some(h) => "  hint: "@ + h@ + "\n"@,
        None => Seq::empty(),
    }
}

/// How one diagnostic is shown, given the line and column of its start and
/// the text of that line: the head line, the source line, the caret line and
/// the hint.
pub open spec fn rendered_block(d: Diagnostic, f: SourceFile, lc: (u32, u32), line: Seq<char>) -> Seq<char> {
    head_of(d, f.file_name(), lc) + ("  "@ + line + "\n"@) + ("  "@ + caret_pad(line, lc.1 as int) + "^\n"@)
        + hint_of(d)
}

/// The blocks of the first `n` diagnostics of `order`, in that order.
pub open spec fn rendered_prefix(
    d: Seq<Diagnostic>,
    order: Seq<usize>,
    files: Seq<&SourceFile>,
    lcs: Seq<(u32, u32)>,
    lines: Seq<Seq<char>>,
    n: int,
) -> Seq<char>
    decreases n,
{
    if n <= 0 {
        Seq::empty()
    } else {
        let di = d[order[n - 1] as int];
        rendered_prefix(d, order, files, lcs, lines, n - 1) + rendered_block(di, file_of(files, di), lcs[n - 1], lines[n - 1])
    }
}

/// `out` shows `d` in rendering order `order`, where `lcs` and `lines` are
/// the line and column of each start offset and the text of that line.
pub open spec fn renders_with(
    d: Seq<Diagnostic>,
    files: Seq<&SourceFile>,
    out: Seq<char>,
    order: Seq<usize>,
    lcs: Seq<(u32, u32)>,
    lines: Seq<Seq<char>>,
) -> bool {
    &&& is_render_order(d, order)
    &&& lcs.len() == d.len()
    &&& lines.len() == d.len()
    &&& forall|k: int|
        0 <= k < d.len() ==> {
            let di = d[order[k] as int];
            &&& file_of(files, di).line_col_of(di.span.start, #[trigger] lcs[k])
            &&& file_of(files, di).line_text_of(lcs[k].0 as int, lines[k])
        }
    &&& out == rendered_prefix(d, order, files, lcs, lines, d.len() as int)
}

/// `out` shows every diagnostic of `d` once, in rendering order: its place,
/// code and message, the source line, a caret under the column and the hint.
pub open spec fn renders(d: Seq<Diagnostic>, files: Seq<&SourceFile>, out: Seq<char>) -> bool {
    exists|order: Seq<usize>, lcs: Seq<(u32, u32)>, lines: Seq<Seq<char>>|
        #[trigger] renders_with(d, files, out, order, lcs, lines)
}

/// The blocks of a prefix depend only on the entries of that prefix.
proof fn lemma_rendered_prefix_stable(
    d: Seq<Diagnostic>,
    order: Seq<usize>,
    files: Seq<&SourceFile>,
    lcs1: Seq<(u32, u32)>,
    lines1: Seq<Seq<char>>,
    lcs2: Seq<(u32, u32)>,
    lines2: Seq<Seq<char>>,
    n: int,
)
    requires
        n <= lcs1.len(),
        n <= lcs2.len(),
        n <= lines1.len(),
        n <= lines2.len(),
        forall|k: int| 0 <= k < n ==> lcs1[k] == lcs2[k] && lines1[k] == lines2[k],
    ensures
        rendered_prefix(d, order, files, lcs1, lines1, n) == rendered_prefix(d, order, files, lcs2, lines2, n),
    decreases n,
{
    if n > 0 {
        lemma_rendered_prefix_stable(d, order, files, lcs1, lines1, lcs2, lines2, n - 1);
    }
}

fn key_le_exec(a: &Diagnostic, b: &Diagnostic) -> (r: bool)
    ensures
        r == key_le(*a, *b),
{
    a.file < b.file || (a.file == b.file && a.span.start <= b.span.start)
}

/// The head line of `d` shown at line `line`, column `col` of file `name`.
fn head_text(d: &Diagnostic, name: &str, line: u32, col: u32) -> (s: String)
    ensures
        s@ == head_of(*d, name@, (line, col)),
{
    let mut s = String::from_str(name);
    s.append(":");
    s.append(nat_text(line as u64).as_str());
    s.append(":");
    s.append(nat_text(col as u64).as_str());
    s.append(": error[");
    s.append(d.code.as_str());
    s.append("]: ");
    s.append(d.message.as_str());
    s.append("\n");
    s
}

/// The characters that put a caret under column `col` of `text`.
fn pad_text(text: &str, col: u32) -> (pad: String)
    requires
        col >= 1,
    ensures
        pad@ == caret_pad(text@, col as int),
{
    let tc = chars_of(text);
    let mut pad = String::new();
    let mut i: usize = 0;
    while i < tc.len() && i + 1 < col as usize
        invariant
            i <= tc@.len(),
            i + 1 <= col,
            pad@.len() == i,
            forall|x: int| 0 <= x < i ==> #[trigger] pad@[x] == (if tc@[x] == '\t' { '\t' } else { ' ' }),
        decreases tc.len() - i,
    {
        proof {
            reveal_strlit("\t");
            reveal_strlit(" ");
        }
        if tc[i] == '\t' {
            pad.append("\t");
        } else {
            pad.append(" ");
        }
        i = i + 1;
    }
    proof {
        assert(pad@ =~= caret_pad(text@, col as int));
    }
    pad
}

/// Appends how `d` is shown against `file`; gives the line and column of its
/// start and the text of that line.
fn render_block(d: &Diagnostic, file: &SourceFile, out: &mut String) -> (r: (u32, u32, Ghost<Seq<char>>))
    requires
        file.wf(),
    ensures
        file.line_col_of(d.span.start, (r.0, r.1)),
        file.line_text_of(r.0 as int, r.2@),
        final(out)@ == old(out)@ + rendered_block(*d, *file, (r.0, r.1), r.2@),
{
    let (line, col) = file.line_col(d.span.start);
    let head = head_text(d, file.name_str(), line, col);
    let text = file.line_text(line);
    let pad = pad_text(text, col);
    let ghost before = out@;
    out.append(head.as_str());
    let ghost a1 = out@;
    out.append("  ");
    out.append(text);
    out.append("\n");
    proof {
        assert(out@ =~= a1 + ("  "@ + text@ + "\n"@));
    }
    let ghost a2 = out@;
    out.append("  ");
    out.append(pad.as_str());
    out.append("^\n");
    proof {
        assert(out@ =~= a2 + ("  "@ + pad@ + "^\n"@));
    }
    let ghost a3 = out@;
    match &d.hint {
        Some(h) => {
            out.append("  hint: ");
            out.append(h.as_str());
            out.append("\n");
        },
        None => {},
    }
    proof {
        assert(out@ =~= a3 + hint_of(*d));
        assert(out@ =~= before + rendered_block(*d, *file, (line, col), text@));
    }
    (line, col, Ghost(text@))
}

impl Diagnostics {
    /// The indices of the diagnostics in rendering order: every index once,
    /// sorted by (file, start offset), equal keys in collection order.
    pub fn render_order(&self) -> (order: Vec<usize>)
        ensures
            is_render_order(self.all(), order@),
            order@.len() == self.all().len(),
            forall|x: int| 0 <= x < order@.len() ==> #[trigger] order@[x] < self.all().len(),
            forall|i: usize| i < self.all().len() ==> #[trigger] order@.contains(i),
            forall|x: int, y: int|
                0 <= x < y < order@.len() ==> renders_before(
                    self.all(),
                    #[trigger] order@[x] as int,
                    #[trigger] order@[y] as int,
                ),
    {
        let n = self.items.len();
        let ghost d = self.items@;
        let mut order: Vec<usize> = Vec::new();
        for i in 0..n
            invariant
                n == d.len(),
                d == self.items@,
                order@.len() == i,
                forall|x: int| 0 <= x < order@.len() ==> #[trigger] order@[x] < i,
                forall|k: usize| k < i ==> #[trigger] order@.contains(k),
                forall|x: int, y: int|
                    0 <= x < y < order@.len() ==> renders_before(
                        d,
                        #[trigger] order@[x] as int,
                        #[trigger] order@[y] as int,
                    ),
        {
            let mut p: usize = 0;
            while p < order.len() && key_le_exec(&self.items[order[p]], &self.items[i])
                invariant
                    n == d.len(),
                    d == self.items@,
                    i < n,
                    0 <= p <= order@.len(),
                    forall|x: int| 0 <= x < order@.len() ==> #[trigger] order@[x] < i,
                    forall|x: int| 0 <= x < p ==> key_le(d[#[trigger] order@[x] as int], d[i as int]),
                decreases order@.len() - p,
            {
                p = p + 1;
            }
            let ghost old_order = order@;
            proof {
                // everything from p on sorts after item i
                assert forall|x: int| p <= x < old_order.len() implies !key_le(
                    d[#[trigger] old_order[x] as int],
                    d[i as int],
                ) by {
                    if p < old_order.len() {
                        if x > p {
                            assert(renders_before(d, old_order[p as int] as int, old_order[x] as int));
                        }
                    }
                }
            }
            order.insert(p, i);
            proof {
                assert forall|x: int| 0 <= x < order@.len() implies #[trigger] order@[x] < i + 1 by {
                    if x < p {
                        assert(order@[x] == old_order[x]);
                    } else if x > p {
                        assert(order@[x] == old_order[x - 1]);
                    }
                }
                assert forall|k: usize| k < i + 1 implies #[trigger] order@.contains(k) by {
                    if k == i {
                        assert(order@[p as int] == i);
                    } else {
                        assert(old_order.contains(k));
                        let x = choose|x: int| 0 <= x < old_order.len() && old_order[x] == k;
                        if x < p {
                            assert(order@[x] == old_order[x]);
                        } else {
                            assert(order@[x + 1] == old_order[x]);
                        }
                    }
                }
                assert forall|x: int, y: int| 0 <= x < y < order@.len() implies renders_before(
                    d,
                    #[trigger] order@[x] as int,
                    #[trigger] order@[y] as int,
                ) by {
                    if y < p {
                        assert(order@[x] == old_order[x] && order@[y] == old_order[y]);
                    } else if y == p {
                        assert(order@[x] == old_order[x]);
                    } else if x > p {
                        assert(order@[x] == old_order[x - 1] && order@[y] == old_order[y - 1]);
                    } else if x == p {
                        assert(order@[y] == old_order[y - 1]);
                    } else {
                        assert(order@[x] == old_order[x] && order@[y] == old_order[y - 1]);
                    }
                }
            }
        }
        order
    }

    /// Renders all diagnostics as `file:line:col: error[Exxx]: message`, each
    /// followed by the source line, a caret under the column and the hint if any.
    /// Single-file form.
    pub fn render(&self, file: &SourceFile) -> (out: String)
        requires
            file.wf(),
        ensures
            renders(self.all(), seq![file], out@),
    {
        let files: Vec<&SourceFile> = vec![file];
        proof {
            assert(files@ =~= seq![file]);
        }
        self.render_multi(files.as_slice())
    }

    /// Renders diagnostics spread over several files; `files[d.file]` is the
    /// file of diagnostic `d` (the first file when out of range).
    pub fn render_multi(&self, files: &[&SourceFile]) -> (out: String)
        requires
            forall|i: int| 0 <= i < files@.len() ==> (#[trigger] files@[i]).wf(),
            self.all().len() > 0 ==> files@.len() > 0,
        ensures
            renders(self.all(), files@, out@),
    {
        let order = self.render_order();
        let mut out = String::new();
        let ghost mut lcs: Seq<(u32, u32)> = Seq::empty();
        let ghost mut lines: Seq<Seq<char>> = Seq::empty();
        let ghost all = self.all();
        for k in 0..order.len()
            invariant
                forall|i: int| 0 <= i < files@.len() ==> (#[trigger] files@[i]).wf(),
                self.all().len() > 0 ==> files@.len() > 0,
                all == self.all(),
                is_render_order(all, order@),
                order@.len() == self.all().len(),
                forall|x: int| 0 <= x < order@.len() ==> #[trigger] order@[x] < self.all().len(),
                lcs.len() == k,
                lines.len() == k,
                forall|j: int|
                    0 <= j < k ==> {
                        let di = all[order@[j] as int];
                        &&& file_of(files@, di).line_col_of(di.span.start, #[trigger] lcs[j])
                        &&& file_of(files@, di).line_text_of(lcs[j].0 as int, lines[j])
                    },
                out@ == rendered_prefix(all, order@, files@, lcs, lines, k as int),
        {
            let ghost before = out@;
            let d = &self.items[order[k]];
            let file: &SourceFile = if d.file < files.len() {
                files[d.file]
            } else {
                files[0]
            };
            proof {
                assert(*file == file_of(files@, all[order@[k as int] as int]));
            }
            let (line, col, text) = render_block(d, file, &mut out);
            proof {
                let old_lcs = lcs;
                let old_lines = lines;
                lcs = lcs.push((line, col));
                lines = lines.push(text@);
                lemma_rendered_prefix_stable(all, order@, files@, old_lcs, old_lines, lcs, lines, k as int);
                let di = all[order@[k as int] as int];
                assert(out@ =~= before + rendered_block(di, file_of(files@, di), lcs[k as int], lines[k as int]));
            }
        }
        proof {
            assert(renders_with(self.all(), files@, out@, order@, lcs, lines));
        }
        out
    }
}

} // verus!
