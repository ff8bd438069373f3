//! Source positions and source files.
use crate::text::{byte_len, chars_of, lemma_byte_len_ge_len, lemma_byte_len_take_mono, lemma_byte_len_take_step, width_of};
use vstd::prelude::*;
use vstd::string::*;

verus! {

/// A half-open byte range in a source text.
#[derive(Debug, Clone, Copy, PartialEq, Eq, Structural)]
pub struct Span {
    pub start: u32,
    pub end: u32,
}

pub open spec fn min_u32(a: u32, b: u32) -> u32 {
    if a <= b {
        a
    } else {
        b
    }
}

pub open spec fn max_u32(a: u32, b: u32) -> u32 {
    if a >= b {
        a
    } else {
        b
    }
}

/// The smallest span covering both arguments.
pub open spec fn spec_merge(a: Span, b: Span) -> Span {
    Span { start: min_u32(a.start, b.start), end: max_u32(a.end, b.end) }
}

impl Span {
    pub fn new(start: u32, end: u32) -> (s: Span)
        ensures
            s.start == start,
            s.end == end,
    {
        Span { start, end }
    }

    pub fn merge(self, other: Span) -> (s: Span)
        ensures
            s == spec_merge(self, other),
    {
        Span {
            start: if self.start <= other.start {
                self.start
            } else {
                other.start
            },
            end: if self.end >= other.end {
                self.end
            } else {
                other.end
            },
        }
    }
}

/// Merging spans is commutative.
pub proof fn law_merge_commutative(a: Span, b: Span)
    ensures
        spec_merge(a, b) == spec_merge(b, a),
{
}

/// Merging spans is associative.
pub proof fn law_merge_associative(a: Span, b: Span, c: Span)
    ensures
        spec_merge(spec_merge(a, b), c) == spec_merge(a, spec_merge(b, c)),
{
}

/// Merging a span with itself gives the span back.
pub proof fn law_merge_idempotent(a: Span)
    ensures
        spec_merge(a, a) == a,
{
}

/// The merged span starts no later and ends no earlier than each argument.
pub proof fn law_merge_covers(a: Span, b: Span)
    ensures
        spec_merge(a, b).start <= a.start,
        spec_merge(a, b).start <= b.start,
        spec_merge(a, b).end >= a.end,
        spec_merge(a, b).end >= b.end,
{
}

/// `j` is the character index of a line's first character: the start of the
/// text, or just after a newline.
pub open spec fn is_line_start(cs: Seq<char>, j: int) -> bool {
    j == 0 || (0 < j <= cs.len() && cs[j - 1] == '\n')
}

/// How many line feeds the characters hold.
pub open spec fn count_newlines(cs: Seq<char>) -> nat
    decreases cs.len(),
{
    if cs.len() == 0 {
        0
    } else {
        count_newlines(cs.drop_last()) + if cs.last() == '\n' {
            1nat
        } else {
            0nat
        }
    }
}

/// One source file; maps byte offsets to lines and columns (both 1-based).
pub struct SourceFile {
    pub name: String,
    pub src: String,
    chars: Vec<char>,
    /// Byte offset of the start of each line.
    line_starts: Vec<u32>,
    /// Character index of the start of each line.
    line_char_starts: Vec<usize>,
}

impl SourceFile {
    /// The file's name.
    pub closed spec fn file_name(&self) -> Seq<char> {
        self.name@
    }

    /// The characters of the file.
    pub closed spec fn text(&self) -> Seq<char> {
        self.chars@
    }

    /// Number of lines (a text with `n` newlines has `n + 1` lines).
    pub closed spec fn num_lines(&self) -> int {
        self.line_char_starts@.len() as int
    }

    /// Character index where line `k` (0-based) starts.
    pub closed spec fn line_char_start(&self, k: int) -> int {
        self.line_char_starts@[k] as int
    }

    /// Character index just past the end of line `k` (0-based), newline included.
    pub open spec fn line_char_end(&self, k: int) -> int {
        if k + 1 < self.num_lines() {
            self.line_char_start(k + 1)
        } else {
            self.text().len() as int
        }
    }

    /// Byte offset where line `k` (0-based) starts.
    pub open spec fn line_byte_start(&self, k: int) -> int {
        byte_len(self.text().take(self.line_char_start(k))) as int
    }

    /// `lc` is the line and column (both 1-based) of byte offset `offset`:
    /// the line is the last one starting at or before the offset, the column
    /// counts the characters of the line that start before it.
    pub open spec fn line_col_of(&self, offset: u32, lc: (u32, u32)) -> bool {
        let k = lc.0 - 1;
        let j = self.line_char_start(k) + lc.1 - 1;
        &&& 1 <= lc.0
        &&& 0 <= k < self.num_lines()
        &&& self.line_byte_start(k) <= offset
        &&& (k + 1 == self.num_lines() || self.line_byte_start(k + 1) > offset)
        &&& 1 <= lc.1
        &&& j <= self.text().len()
        &&& forall|i: int|
            self.line_char_start(k) <= i < j ==> byte_len(#[trigger] self.text().take(i)) < offset
        &&& (j == self.text().len() || byte_len(self.text().take(j)) >= offset)
    }

    /// `t` is the text of line `line` (1-based) without its line terminator.
    pub open spec fn line_text_of(&self, line: int, t: Seq<char>) -> bool {
        let k = line - 1;
        let s = self.line_char_start(k);
        let e = self.line_char_end(k);
        let e2 = s + t.len();
        &&& s <= e2 <= e
        &&& t == self.text().subrange(s, e2)
        &&& forall|i: int| e2 <= i < e ==> #[trigger] self.text()[i] == '\n' || self.text()[i] == '\r'
        &&& (e2 == s || (self.text()[e2 - 1] != '\n' && self.text()[e2 - 1] != '\r'))
    }

    /// The line tables describe exactly the lines of the text.
    #[verifier::opaque]
    pub closed spec fn wf(&self) -> bool {
        let cs = self.chars@;
        let lcs = self.line_char_starts@;
        &&& cs == self.src@
        &&& byte_len(cs) < u32::MAX
        &&& self.line_starts@.len() == lcs.len()
        &&& 1 <= lcs.len() <= cs.len() + 1
        &&& lcs[0] == 0
        &&& forall|k: int|
            #![trigger lcs[k]]
            0 <= k < lcs.len() ==> {
                &&& lcs[k] <= cs.len()
                &&& is_line_start(cs, lcs[k] as int)
                &&& self.line_starts@[k] == byte_len(cs.take(lcs[k] as int))
            }
        &&& forall|k: int| 0 <= k < lcs.len() - 1 ==> #[trigger] lcs[k] < lcs[k + 1]
        &&& forall|k: int, j: int|
            #![trigger lcs[k], is_line_start(cs, j)]
            0 <= k < lcs.len() - 1 && lcs[k] < j < lcs[k + 1] ==> !is_line_start(cs, j)
        &&& forall|j: int| lcs[lcs.len() - 1] < j <= cs.len() ==> !is_line_start(cs, j)
    }

    /// What a well-formed file's line table says: the text fits 32-bit byte
    /// offsets; lines start at 0, in increasing order, exactly where a line
    /// start is (the beginning of the text or just after a `\n`).
    pub proof fn lemma_wf(&self)
        requires
            self.wf(),
        ensures
            byte_len(self.text()) < u32::MAX,
            1 <= self.num_lines() <= self.text().len() + 1,
            self.line_char_start(0) == 0,
            forall|k: int|
                0 <= k < self.num_lines() ==> 0 <= #[trigger] self.line_char_start(k) <= self.text().len()
                    && is_line_start(self.text(), self.line_char_start(k)),
            forall|k: int| 0 <= k < self.num_lines() - 1 ==> #[trigger] self.line_char_start(k) < self.line_char_start(k + 1),
            forall|k: int, j: int|
                #![trigger self.line_char_start(k), is_line_start(self.text(), j)]
                0 <= k < self.num_lines() && self.line_char_start(k) < j < self.line_char_end(k)
                    ==> !is_line_start(self.text(), j),
    {
        reveal(SourceFile::wf);
    }

    /// The file's characters.
    pub fn chars(&self) -> (r: &Vec<char>)
        requires
            self.wf(),
        ensures
            r@ == self.text(),
            byte_len(r@) < u32::MAX,
    {
        proof {
            reveal(SourceFile::wf);
        }
        &self.chars
    }

    /// The file's name.
    pub fn name_str(&self) -> (s: &str)
        ensures
            s@ == self.file_name(),
    {
        self.name.as_str()
    }

    pub fn new(name: &str, src: &str) -> (f: SourceFile)
        requires
            byte_len(src@) < u32::MAX,
        ensures
            f.wf(),
            f.file_name() == name@,
            f.text() == src@,
            f.num_lines() == count_newlines(src@) + 1,
    {
        let chars = chars_of(src);
        let n = chars.len();
        let mut line_starts: Vec<u32> = Vec::new();
        let mut line_char_starts: Vec<usize> = Vec::new();
        line_starts.push(0);
        line_char_starts.push(0);
        let mut pos: usize = 0;
        let mut j: usize = 0;
        proof {
            lemma_byte_len_ge_len(chars@);
            assert(chars@.take(0) =~= Seq::<char>::empty());
        }
        while j < n
            invariant
                n == chars@.len(),
                chars@ == src@,
                byte_len(chars@) < u32::MAX,
                0 <= j <= n,
                pos == byte_len(chars@.take(j as int)),
                line_char_starts@.len() == count_newlines(chars@.take(j as int)) + 1,
                line_starts@.len() == line_char_starts@.len(),
                1 <= line_char_starts@.len() <= j + 1,
                line_char_starts@[0] == 0,
                forall|k: int|
                    #![trigger line_char_starts@[k]]
                    0 <= k < line_char_starts@.len() ==> {
                        &&& line_char_starts@[k] <= j
                        &&& is_line_start(chars@, line_char_starts@[k] as int)
                        &&& line_starts@[k] == byte_len(chars@.take(line_char_starts@[k] as int))
                    },
                forall|k: int|
                    0 <= k < line_char_starts@.len() - 1 ==> #[trigger] line_char_starts@[k]
                        < line_char_starts@[k + 1],
                forall|k: int, i: int|
                    #![trigger line_char_starts@[k], is_line_start(chars@, i)]
                    0 <= k < line_char_starts@.len() - 1 && line_char_starts@[k] < i
                        < line_char_starts@[k + 1] ==> !is_line_start(chars@, i),
                forall|i: int|
                    line_char_starts@[line_char_starts@.len() - 1] < i <= j ==> !is_line_start(
                        chars@,
                        i,
                    ),
            decreases n - j,
        {
            let c = chars[j];
            proof {
                assert(chars@.take(j + 1).drop_last() =~= chars@.take(j as int));
            }
            let ghost oj = j;
            let ghost old_lcs = line_char_starts@;
            let ghost old_ls = line_starts@;
            proof {
                lemma_byte_len_take_step(chars@, j as int);
                lemma_byte_len_take_mono(chars@, j as int + 1, n as int);
                assert(chars@.take(n as int) =~= chars@);
            }
            pos = pos + width_of(c);
            j = j + 1;
            proof {
                assert(is_line_start(chars@, j as int) <==> c == '\n');
                assert(old_lcs[old_lcs.len() - 1] <= oj);
            }
            if c == '\n' {
                line_starts.push(pos as u32);
                line_char_starts.push(j);
                proof {
                    let lcs = line_char_starts@;
                    assert(lcs[lcs.len() - 1] == j);
                    assert(lcs[lcs.len() - 2] == old_lcs[old_lcs.len() - 1]);
                    assert forall|k: int| #![trigger lcs[k]] 0 <= k < lcs.len() implies {
                        &&& lcs[k] <= j
                        &&& is_line_start(chars@, lcs[k] as int)
                        &&& line_starts@[k] == byte_len(chars@.take(lcs[k] as int))
                    } by {
                        if k < old_lcs.len() {
                            assert(lcs[k] == old_lcs[k]);
                            assert(line_starts@[k] == old_ls[k]);
                        }
                    }
                    assert forall|k: int| 0 <= k < lcs.len() - 1 implies #[trigger] lcs[k]
                        < lcs[k + 1] by {
                        if k < old_lcs.len() - 1 {
                            assert(lcs[k] == old_lcs[k]);
                            assert(lcs[k + 1] == old_lcs[k + 1]);
                        }
                    }
                    assert forall|k: int, i: int|
                        #![trigger lcs[k], is_line_start(chars@, i)]
                        0 <= k < lcs.len() - 1 && lcs[k] < i < lcs[k + 1] implies !is_line_start(
                        chars@,
                        i,
                    ) by {
                        if k < old_lcs.len() - 1 {
                            assert(old_lcs[k] == lcs[k]);
                            assert(old_lcs[k + 1] == lcs[k + 1]);
                        }
                    }
                }
            }
        }
        proof {
            assert(chars@.take(n as int) =~= chars@);
        }
        let f = SourceFile {
            name: name.to_owned(),
            src: src.to_owned(),
            chars,
            line_starts,
            line_char_starts,
        };
        proof {
            reveal(SourceFile::wf);
        }
        f
    }

    /// Line and column (both 1-based) of a byte offset. The column counts
    /// the characters of the line that start before the offset.
    #[verifier::rlimit(40)]
    pub fn line_col(&self, offset: u32) -> (lc: (u32, u32))
        requires
            self.wf(),
        ensures
            self.line_col_of(offset, lc),
    {
        let nl = self.line_starts.len();
        let n = self.chars.len();
        proof {
            assert(nl >= 1 && nl <= n + 1 && nl == self.line_char_starts@.len() && self.line_starts@[0] == 0
                && byte_len(self.chars@) < u32::MAX) by {
                reveal(SourceFile::wf);
                assert(self.line_char_starts@[0] == 0);
                assert(self.chars@.take(0) =~= Seq::<char>::empty());
            }
            lemma_byte_len_ge_len(self.chars@);
        }
        let mut k: usize = 0;
        while k + 1 < nl && self.line_starts[k + 1] <= offset
            invariant
                nl == self.line_starts@.len(),
                1 <= nl <= n + 1,
                0 <= k < nl,
                self.line_starts@[k as int] <= offset,
            decreases nl - k,
        {
            k = k + 1;
        }
        proof {
            assert(self.line_char_starts@[k as int] <= n && self.line_starts@[k as int]
                == self.line_byte_start(k as int) && self.line_starts@[k as int] == byte_len(
                self.chars@.take(self.line_char_starts@[k as int] as int),
            ) && (k + 1 < nl ==> self.line_starts@[k + 1] == self.line_byte_start(k + 1))) by {
                reveal(SourceFile::wf);
                assert(self.line_char_starts@[k as int] == self.line_char_starts@[k as int]);
                if k + 1 < nl {
                    assert(self.line_char_starts@[k + 1] == self.line_char_starts@[k + 1]);
                }
            }
        }
        let mut j: usize = self.line_char_starts[k];
        let mut pos: usize = self.line_starts[k] as usize;
        let ghost cs = self.chars@;
        let ghost j0 = j as int;
        while j < n && pos < offset as usize
            invariant
                cs == self.chars@,
                n == cs.len(),
                byte_len(cs) < u32::MAX,
                j0 <= j <= n,
                pos == byte_len(cs.take(j as int)),
                forall|i: int| j0 <= i < j ==> byte_len(#[trigger] cs.take(i)) < offset,
            decreases n - j,
        {
            proof {
                lemma_byte_len_take_step(cs, j as int);
                lemma_byte_len_take_mono(cs, j as int + 1, n as int);
                assert(cs.take(n as int) =~= cs);
            }
            pos = pos + width_of(self.chars[j]);
            j = j + 1;
        }
        let line = (k + 1) as u32;
        let col = (j - self.line_char_starts[k] + 1) as u32;
        proof {
            assert(self.text() == cs);
            assert(self.line_char_start(k as int) == j0);
            assert(j0 + col - 1 == j);
        }
        (line, col)
    }

    /// The text of line `line` (1-based) without its line terminator.
    #[verifier::loop_isolation(false)]
    pub fn line_text(&self, line: u32) -> (t: &str)
        requires
            self.wf(),
            1 <= line <= self.num_lines(),
        ensures
            self.line_text_of(line as int, t@),
    {
        proof {
            reveal(SourceFile::wf);
        }
        let idx = (line - 1) as usize;
        let s = self.line_char_starts[idx];
        proof {
            assert(self.line_char_starts@[idx as int] <= self.chars@.len());
            if idx + 1 < self.line_char_starts.len() {
                assert(self.line_char_starts@[idx + 1] <= self.chars@.len());
                assert(self.line_char_starts@[idx as int] < self.line_char_starts@[idx + 1]);
            }
        }
        let e = if idx + 1 < self.line_char_starts.len() {
            self.line_char_starts[idx + 1]
        } else {
            self.chars.len()
        };
        let mut e2 = e;
        while e2 > s && (self.chars[e2 - 1] == '\n' || self.chars[e2 - 1] == '\r')
            invariant
                s <= e2 <= e <= self.chars@.len(),
                forall|i: int|
                    e2 <= i < e ==> #[trigger] self.chars@[i] == '\n' || self.chars@[i] == '\r',
            decreases e2,
        {
            e2 = e2 - 1;
        }
        self.src.as_str().substring_char(s, e2)
    }
}

} // verus!
