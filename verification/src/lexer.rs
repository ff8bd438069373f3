//! Indentation-aware lexer.
//!
//! Works line by line with a stack of indentation widths and emits INDENT /
//! DEDENT / NEWLINE. Inside `()` `[]` `{}` no INDENT / DEDENT is emitted
//! (NEWLINE still separates record fields and list elements).
use crate::decimal::parse_decimal;
use crate::diagnostics::{codes, count_code, Code, Diagnostics};
use crate::span::{SourceFile, Span};
use crate::text::{
    byte_len, chars_match, is_alpha, is_digit, is_digit_exec, is_ident_char, is_ident_char_exec,
    is_upper, is_upper_exec, lemma_byte_len_take_mono, lemma_byte_len_take_step, parse_i64_digits,
    string_from_chars, sub_chars, width_of, is_alpha_exec,
};
use crate::text_fmt::{cat3};
use crate::token::{Token, TokenKind};
use vstd::prelude::*;
use vstd::string::*;

verus! {

/// The keyword a word spells, if any.
pub open spec fn keyword(s: Seq<char>) -> Option<TokenKind> {
    if s == "import"@ {
        Some(TokenKind::KwImport)
    } else if s == "as"@ {
        Some(TokenKind::KwAs)
    } else if s == "T"@ {
        Some(TokenKind::KwT)
    } else if s == "C"@ {
        Some(TokenKind::KwC)
    } else if s == "R"@ {
        Some(TokenKind::KwR)
    } else if s == "F"@ {
        Some(TokenKind::KwF)
    } else if s == "when"@ {
        Some(TokenKind::KwWhen)
    } else if s == "match"@ {
        Some(TokenKind::KwMatch)
    } else if s == "at"@ {
        Some(TokenKind::KwAt)
    } else if s == "true"@ {
        Some(TokenKind::KwTrue)
    } else if s == "false"@ {
        Some(TokenKind::KwFalse)
    } else if s == "and"@ {
        Some(TokenKind::KwAnd)
    } else if s == "or"@ {
        Some(TokenKind::KwOr)
    } else if s == "not"@ {
        Some(TokenKind::KwNot)
    } else if s == "Void"@ {
        Some(TokenKind::KwVoid)
    } else if s == "Error"@ {
        Some(TokenKind::KwError)
    } else if s == "List"@ {
        Some(TokenKind::KwList)
    } else if s == "from"@ {
        Some(TokenKind::KwFrom)
    } else {
        None
    }
}

/// The token's span is the bytes of the characters `cs[a..b]`.
pub open spec fn at_chars(cs: Seq<char>, tok: Token, a: int, b: int) -> bool {
    &&& 0 <= a <= b <= cs.len()
    &&& byte_len(cs.take(a)) == tok.span.start
    &&& byte_len(cs.take(b)) == tok.span.end
}

/// `w` is a word (a letter or `_`, then letters, digits and `_`) and `k` is
/// the token it reads as.
pub open spec fn word_read(w: Seq<char>, k: TokenKind) -> bool {
    &&& w.len() > 0
    &&& (is_alpha(w[0]) || w[0] == '_')
    &&& forall|i: int| 0 <= i < w.len() ==> is_ident_char(#[trigger] w[i])
    &&& match keyword(w) {
        Some(kw) => k == kw,
        None => if is_upper(w[0]) {
            k matches TokenKind::UpperIdent(t) && t@ == w
        } else {
            k matches TokenKind::LowerIdent(t) && t@ == w
        },
    }
}

/// The character that an escape `\c` in a text literal stands for, when `c`
/// makes one: `\n` a line break, `\t` a tab, `\\` a backslash, `\"` a quote.
pub open spec fn escaped(c: char) -> Option<char> {
    if c == 'n' {
        Some('\n')
    } else if c == 't' {
        Some('\t')
    } else if c == '\\' {
        Some('\\')
    } else if c == '"' {
        Some('"')
    } else {
        None
    }
}

/// Reads a text literal from `i`, just after its opening quote, up to its
/// closing quote: the text it stands for and the position after the closing
/// quote. A character stands for itself and an escape for its character; an
/// escape of any other character stands for nothing (it is reported). `None`
/// where the line or the input ends first.
pub open spec fn text_scan(cs: Seq<char>, i: int) -> Option<(Seq<char>, int)>
    decreases cs.len() - i,
{
    if i < 0 || i >= cs.len() || cs[i] == '\n' || cs[i] == '\r' {
        None
    } else if cs[i] == '"' {
        Some((Seq::empty(), i + 1))
    } else if cs[i] == '\\' {
        if i + 1 >= cs.len() {
            None
        } else {
            match escaped(cs[i + 1]) {
                Some(ch) => prefixed(seq![ch], text_scan(cs, i + 2)),
                None => text_scan(cs, i + 2),
            }
        }
    } else {
        prefixed(seq![cs[i]], text_scan(cs, i + 1))
    }
}

/// The character that an escape `\c` in a character literal stands for:
/// `\n` a line break, `\t` a tab, `\\` a backslash, `\'` a quote; any other
/// escape the character 0 (it is reported).
pub open spec fn char_escaped(c: char) -> char {
    if c == 'n' {
        '\n'
    } else if c == 't' {
        '\t'
    } else if c == '\\' {
        '\\'
    } else if c == '\'' {
        '\''
    } else {
        '\0'
    }
}

/// Reads a character literal from `i`, just after its opening quote: the
/// character it stands for (itself, or the character of an escape) and the
/// position after its closing quote; `None` where it is not closed right
/// after that character, or is empty.
pub open spec fn char_scan(cs: Seq<char>, i: int) -> Option<(char, int)> {
    if i < 0 || i >= cs.len() || cs[i] == '\n' || cs[i] == '\r' || cs[i] == '\'' {
        None
    } else if cs[i] == '\\' {
        if i + 2 < cs.len() && cs[i + 2] == '\'' {
            Some((char_escaped(cs[i + 1]), i + 3))
        } else {
            None
        }
    } else if i + 1 < cs.len() && cs[i + 1] == '\'' {
        Some((cs[i], i + 2))
    } else {
        None
    }
}

/// `w` is written as a decimal literal: digits, a point, digits.
pub open spec fn decimal_written(w: Seq<char>) -> bool {
    exists|p: int|
        0 < p < w.len() - 1 && #[trigger] w[p] == '.' && forall|k: int| 0 <= k < w.len() && k != p ==> is_digit(#[trigger] w[k])
}

/// `done` put before the text that `o` read.
pub open spec fn prefixed(done: Seq<char>, o: Option<(Seq<char>, int)>) -> Option<(Seq<char>, int)> {
    match o {
        Some((rest, e)) => Some((done + rest, e)),
        None => None,
    }
}

proof fn lemma_prefixed_assoc(a: Seq<char>, b: Seq<char>, o: Option<(Seq<char>, int)>)
    ensures
        prefixed(a, prefixed(b, o)) == prefixed(a + b, o),
{
    if let Some((r, e)) = o {
        assert(a + (b + r) =~= (a + b) + r);
    }
}

/// Characters other than a backslash, a quote or a line end stand for
/// themselves: a text literal `"raw"` with none of those in `raw` reads as
/// `raw`, ending after its closing quote.
pub proof fn law_text_plain(cs: Seq<char>, i: int, raw: Seq<char>)
    requires
        0 <= i,
        i + raw.len() < cs.len(),
        cs.subrange(i, i + raw.len()) == raw,
        cs[i + raw.len()] == '"',
        forall|k: int| 0 <= k < raw.len() ==> #[trigger] raw[k] != '\\' && raw[k] != '"' && raw[k] != '\n' && raw[k] != '\r',
    ensures
        text_scan(cs, i) == Some((raw, i + raw.len() + 1)),
    decreases raw.len(),
{
    if raw.len() > 0 {
        assert(cs[i] == raw[0]);
        let rest = raw.drop_first();
        assert(cs.subrange(i + 1, i + 1 + rest.len()) =~= rest);
        law_text_plain(cs, i + 1, rest);
        assert(seq![raw[0]] + rest =~= raw);
    }
}

/// An escape pair stands for one character: `\n` a line break, `\t` a tab,
/// `\\` a backslash, `\"` a quote, followed by what the rest reads as.
pub proof fn law_text_escape(cs: Seq<char>, i: int)
    requires
        0 <= i,
        i + 1 < cs.len(),
        cs[i] == '\\',
        cs[i + 1] == 'n' || cs[i + 1] == 't' || cs[i + 1] == '\\' || cs[i + 1] == '"',
    ensures
        text_scan(cs, i) == prefixed(
            seq![if cs[i + 1] == 'n' { '\n' } else if cs[i + 1] == 't' { '\t' } else { cs[i + 1] }],
            text_scan(cs, i + 2),
        ),
{
}

/// A token is what the source says at its span: a word the word itself, an
/// integer the digits whose value it holds, a text literal the text that its
/// characters between the quotes stand for (see `text_scan`).
pub open spec fn reads_as(cs: Seq<char>, tok: Token) -> bool {
    match tok.kind {
        TokenKind::UpperIdent(_) | TokenKind::LowerIdent(_) | TokenKind::KwImport | TokenKind::KwAs
        | TokenKind::KwT | TokenKind::KwC | TokenKind::KwR | TokenKind::KwF | TokenKind::KwWhen
        | TokenKind::KwMatch | TokenKind::KwAt | TokenKind::KwTrue | TokenKind::KwFalse
        | TokenKind::KwAnd | TokenKind::KwOr | TokenKind::KwNot | TokenKind::KwVoid
        | TokenKind::KwError | TokenKind::KwList | TokenKind::KwFrom => exists|a: int, b: int|
            #[trigger] at_chars(cs, tok, a, b) && word_read(cs.subrange(a, b), tok.kind),
        TokenKind::IntLit(v) => exists|a: int, b: int|
            #[trigger] at_chars(cs, tok, a, b) && a < b && (forall|i: int| a <= i < b ==> is_digit(#[trigger] cs[i]))
                && crate::text::digits_value(cs.subrange(a, b)) == v,
        TokenKind::DecimalLit(d) => exists|a: int, b: int|
            #[trigger] at_chars(cs, tok, a, b) && decimal_written(cs.subrange(a, b)) && crate::decimal::decimal_parse(
                cs.subrange(a, b),
            ) == Some(d),
        TokenKind::CharLit(c) => exists|a: int, b: int|
            #[trigger] at_chars(cs, tok, a, b) && a < cs.len() && cs[a] == '\'' && char_scan(cs, a + 1) == Some((c, b)),
        TokenKind::TextLit(s) => exists|a: int, b: int|
            #[trigger] at_chars(cs, tok, a, b) && a < cs.len() && cs[a] == '"' && text_scan(cs, a + 1) == Some((s@, b)),
        _ => true,
    }
}

/// How many of the tokens open an indented block.
pub open spec fn count_indents(toks: Seq<Token>) -> nat
    decreases toks.len(),
{
    if toks.len() == 0 {
        0
    } else {
        count_indents(toks.drop_last()) + if toks.last().kind is Indent {
            1nat
        } else {
            0nat
        }
    }
}

/// How many of the tokens close an indented block.
pub open spec fn count_dedents(toks: Seq<Token>) -> nat
    decreases toks.len(),
{
    if toks.len() == 0 {
        0
    } else {
        count_dedents(toks.drop_last()) + if toks.last().kind is Dedent {
            1nat
        } else {
            0nat
        }
    }
}

/// No prefix of the tokens closes more blocks than it opens, but for `extra`.
pub open spec fn prefixes_nested(toks: Seq<Token>, extra: int) -> bool {
    forall|j: int| 0 <= j <= toks.len() ==> count_dedents(#[trigger] toks.take(j)) <= count_indents(toks.take(j)) + extra
}

/// A token appended keeps every prefix nested, where a `Dedent` closes a block
/// that is open.
proof fn lemma_nested_push(toks: Seq<Token>, t: Token, extra: int)
    requires
        prefixes_nested(toks, extra),
        t.kind is Dedent ==> count_dedents(toks) + 1 <= count_indents(toks) + extra,
    ensures
        prefixes_nested(toks.push(t), extra),
{
    assert forall|j: int| 0 <= j <= toks.push(t).len() implies count_dedents(#[trigger] toks.push(t).take(j)) <= count_indents(
        toks.push(t).take(j),
    ) + extra by {
        if j <= toks.len() {
            assert(toks.push(t).take(j) =~= toks.take(j));
        } else {
            assert(toks.push(t).take(j) =~= toks.push(t));
            assert(toks.push(t).drop_last() =~= toks);
            assert(toks.take(toks.len() as int) =~= toks);
        }
    }
}

/// Every token's span lies within the first `limit` bytes, and the tokens
/// come in the order of their starts.
pub open spec fn in_source_order(toks: Seq<Token>, limit: int) -> bool {
    &&& forall|i: int| 0 <= i < toks.len() ==> (#[trigger] toks[i]).span.start <= toks[i].span.end <= limit
    &&& forall|i: int, j: int|
        0 <= i < j < toks.len() ==> (#[trigger] toks[i]).span.start <= (#[trigger] toks[j]).span.start
}

/// Lexes a whole file. The result always ends with one `Eof` token, and no
/// other token is `Eof`; the tokens come in source order, their spans within
/// the text; diagnostics are appended to `diags`.
pub fn lex(file: &SourceFile, diags: &mut Diagnostics) -> (toks: Vec<Token>)
    requires
        file.wf(),
    ensures
        toks@.len() >= 1,
        toks@.last().kind is Eof,
        forall|i: int| 0 <= i < toks@.len() - 1 ==> !(#[trigger] toks@[i].kind is Eof),
        in_source_order(toks@, byte_len(file.text()) as int),
        forall|i: int| 0 <= i < toks@.len() ==> reads_as(file.text(), #[trigger] toks@[i]),
        count_indents(toks@) + count_code(final(diags).all(), Code::E103) == count_dedents(toks@) + count_code(
            old(diags).all(),
            Code::E103,
        ),
        prefixes_nested(toks@, count_code(final(diags).all(), Code::E103) - count_code(old(diags).all(), Code::E103)),
        final(diags).file() == old(diags).file(),
        final(diags).all().take(old(diags).all().len() as int) == old(diags).all(),
        final(diags).all().len() >= old(diags).all().len(),
{
    let cs = file.chars();
    let mut local = Diagnostics::new();
    local.set_file(diags.current());
    let mut lx = Lexer {
        cs: cs.clone(),
        n: cs.len(),
        pos: 0,
        bpos: 0,
        tokens: Vec::new(),
        indent_stack: vec![0],
        bracket_depth: 0,
        diags: local,
    };
    proof {
        assert(lx.cs@.take(0) =~= Seq::<char>::empty());
    }
    let toks = lx.run(diags);
    toks
}

struct Lexer {
    cs: Vec<char>,
    n: usize,
    /// Character index of the next character.
    pos: usize,
    /// Byte offset of the next character.
    bpos: usize,
    tokens: Vec<Token>,
    indent_stack: Vec<u32>,
    bracket_depth: u32,
    diags: Diagnostics,
}

impl Lexer {
    spec fn inv(&self) -> bool {
        &&& self.n == self.cs@.len()
        &&& self.pos <= self.n
        &&& self.bpos == byte_len(self.cs@.take(self.pos as int))
        &&& byte_len(self.cs@) < u32::MAX
        &&& self.indent_stack@.len() >= 1
        &&& count_indents(self.tokens@) + count_code(self.diags.all(), Code::E103) == count_dedents(self.tokens@)
            + self.indent_stack@.len() - 1
        &&& prefixes_nested(self.tokens@, count_code(self.diags.all(), Code::E103) as int)
        &&& forall|i: int|
            0 <= i < self.tokens@.len() ==> !(#[trigger] self.tokens@[i].kind is Eof)
        &&& in_source_order(self.tokens@, self.bpos as int)
        &&& forall|i: int| 0 <= i < self.tokens@.len() ==> reads_as(self.cs@, #[trigger] self.tokens@[i])
    }

    /// No token starts after `p`.
    spec fn starts_by(&self, p: u32) -> bool {
        forall|i: int| 0 <= i < self.tokens@.len() ==> (#[trigger] self.tokens@[i]).span.start <= p
    }

    spec fn same_text(&self, other: &Lexer) -> bool {
        self.cs@ == other.cs@ && self.n == other.n && self.pos >= other.pos
    }

    /// The byte offset of the next character, as a span position.
    fn here(&self) -> (b: u32)
        requires
            self.inv(),
        ensures
            b == self.bpos,
    {
        proof {
            lemma_byte_len_take_mono(self.cs@, self.pos as int, self.n as int);
            assert(self.cs@.take(self.n as int) =~= self.cs@);
        }
        self.bpos as u32
    }

    fn peek(&self) -> (c: Option<char>)
        requires
            self.inv(),
        ensures
            self.pos < self.n ==> c == Some(self.cs@[self.pos as int]),
            self.pos >= self.n ==> c is None,
    {
        if self.pos < self.n {
            Some(self.cs[self.pos])
        } else {
            None
        }
    }

    fn peek_is(&self, c: char) -> (b: bool)
        requires
            self.inv(),
        ensures
            b == (self.pos < self.n && self.cs@[self.pos as int] == c),
    {
        self.pos < self.n && self.cs[self.pos] == c
    }

    /// Moves past one character.
    fn bump(&mut self)
        requires
            old(self).inv(),
            old(self).pos < old(self).n,
        ensures
            final(self).inv(),
            final(self).pos == old(self).pos + 1,
            final(self).bpos >= old(self).bpos,
            final(self).cs@ == old(self).cs@,
            final(self).n == old(self).n,
            final(self).tokens@ == old(self).tokens@,
            final(self).bracket_depth == old(self).bracket_depth,
            final(self).indent_stack@ == old(self).indent_stack@,
            final(self).diags.file() == old(self).diags.file(),
    {
        proof {
            lemma_byte_len_take_step(self.cs@, self.pos as int);
            lemma_byte_len_take_mono(self.cs@, self.pos as int + 1, self.n as int);
            assert(self.cs@.take(self.n as int) =~= self.cs@);
        }
        self.bpos = self.bpos + width_of(self.cs[self.pos]);
        self.pos = self.pos + 1;
    }

    fn push(&mut self, kind: TokenKind, start: u32, end: u32)
        requires
            old(self).inv(),
            !(kind is Eof),
            !(kind is Indent),
            !(kind is Dedent),
            start <= end <= old(self).bpos,
            old(self).starts_by(start),
            reads_as(old(self).cs@, Token { kind, span: Span { start, end } }),
        ensures
            final(self).inv(),
            final(self).pos == old(self).pos,
            final(self).bpos == old(self).bpos,
            final(self).cs@ == old(self).cs@,
            final(self).n == old(self).n,
            final(self).tokens@ == old(self).tokens@.push(Token { kind, span: Span { start, end } }),
            final(self).bracket_depth == old(self).bracket_depth,
            final(self).indent_stack@ == old(self).indent_stack@,
            final(self).diags.file() == old(self).diags.file(),
    {
        proof {
            lemma_nested_push(self.tokens@, Token { kind, span: Span { start, end } }, count_code(self.diags.all(), Code::E103) as int);
        }
        self.tokens.push(Token { kind, span: Span::new(start, end) });
        proof {
            assert(self.tokens@.drop_last() =~= old(self).tokens@);
        }
    }

    /// Opens an indented block: a deeper indentation level and its `Indent` token.
    fn open_block(&mut self, indent: u32, start: u32, end: u32)
        requires
            old(self).inv(),
            start <= end <= old(self).bpos,
            old(self).starts_by(start),
        ensures
            final(self).inv(),
            final(self).pos == old(self).pos,
            final(self).bpos == old(self).bpos,
            final(self).cs@ == old(self).cs@,
            final(self).n == old(self).n,
            final(self).tokens@ == old(self).tokens@.push(Token { kind: TokenKind::Indent, span: Span { start, end } }),
            final(self).bracket_depth == old(self).bracket_depth,
            final(self).indent_stack@ == old(self).indent_stack@.push(indent),
            final(self).diags == old(self).diags,
    {
        proof {
            lemma_nested_push(self.tokens@, Token { kind: TokenKind::Indent, span: Span { start, end } }, count_code(self.diags.all(), Code::E103) as int);
        }
        self.indent_stack.push(indent);
        self.tokens.push(Token { kind: TokenKind::Indent, span: Span::new(start, end) });
        proof {
            assert(self.tokens@.drop_last() =~= old(self).tokens@);
        }
    }

    /// Closes the innermost indented block: its level goes, with a `Dedent` token.
    fn close_block(&mut self, start: u32, end: u32)
        requires
            old(self).inv(),
            old(self).indent_stack@.len() > 1,
            start <= end <= old(self).bpos,
            old(self).starts_by(start),
        ensures
            final(self).inv(),
            final(self).pos == old(self).pos,
            final(self).bpos == old(self).bpos,
            final(self).cs@ == old(self).cs@,
            final(self).n == old(self).n,
            final(self).tokens@ == old(self).tokens@.push(Token { kind: TokenKind::Dedent, span: Span { start, end } }),
            final(self).bracket_depth == old(self).bracket_depth,
            final(self).indent_stack@ == old(self).indent_stack@.drop_last(),
            final(self).diags == old(self).diags,
    {
        proof {
            lemma_nested_push(self.tokens@, Token { kind: TokenKind::Dedent, span: Span { start, end } }, count_code(self.diags.all(), Code::E103) as int);
        }
        self.indent_stack.pop();
        self.tokens.push(Token { kind: TokenKind::Dedent, span: Span::new(start, end) });
        proof {
            assert(self.tokens@.drop_last() =~= old(self).tokens@);
        }
    }

    /// A line indented to no enclosing level: reported (E103), and its width
    /// taken as a new level.
    fn bad_indent(&mut self, indent: u32, sp: Span)
        requires
            old(self).inv(),
        ensures
            final(self).inv(),
            final(self).pos == old(self).pos,
            final(self).bpos == old(self).bpos,
            final(self).cs@ == old(self).cs@,
            final(self).n == old(self).n,
            final(self).tokens@ == old(self).tokens@,
            final(self).bracket_depth == old(self).bracket_depth,
            final(self).indent_stack@ == old(self).indent_stack@.push(indent),
            final(self).diags.file() == old(self).diags.file(),
    {
        self.diags.emit(
            codes::LEX_BAD_INDENT,
            sp,
            String::from_str("インデントが外側のどのブロックとも一致しません"),
        );
        self.indent_stack.push(indent);
    }

    fn run(&mut self, out: &mut Diagnostics) -> (toks: Vec<Token>)
        requires
            old(self).inv(),
            old(self).diags.file() == old(out).file(),
        ensures
            toks@.len() >= 1,
            toks@.last().kind is Eof,
            forall|i: int| 0 <= i < toks@.len() - 1 ==> !(#[trigger] toks@[i].kind is Eof),
            in_source_order(toks@, byte_len(old(self).cs@) as int),
            forall|i: int| 0 <= i < toks@.len() ==> reads_as(old(self).cs@, #[trigger] toks@[i]),
            count_indents(toks@) + count_code(final(out).all(), Code::E103) == count_dedents(toks@) + count_code(
                old(out).all(),
                Code::E103,
            ),
            prefixes_nested(toks@, count_code(final(out).all(), Code::E103) - count_code(old(out).all(), Code::E103)),
            final(out).file() == old(out).file(),
            final(out).all().take(old(out).all().len() as int) == old(out).all(),
            final(out).all().len() >= old(out).all().len(),
    {
        while self.pos < self.n
            invariant
                self.inv(),
                self.cs@ == old(self).cs@,
            decreases self.n - self.pos,
        {
            self.lex_line();
        }
        proof {
            assert(self.cs@.take(self.n as int) =~= self.cs@);
        }
        let end = self.here();
        while self.indent_stack.len() > 1
            invariant
                self.inv(),
                self.cs@ == old(self).cs@,
                self.pos == self.n,
                end == self.bpos,
            decreases self.indent_stack@.len(),
        {
            self.close_block(end, end);
        }
        let mut toks: Vec<Token> = Vec::new();
        let ghost made = self.tokens@;
        std::mem::swap(&mut toks, &mut self.tokens);
        toks.push(Token { kind: TokenKind::Eof, span: Span::new(end, end) });
        proof {
            assert(forall|i: int| 0 <= i < toks@.len() - 1 ==> toks@[i] == made[i]);
            assert forall|i: int| 0 <= i < toks@.len() implies reads_as(old(self).cs@, #[trigger] toks@[i]) by {
                if i < made.len() {
                    assert(toks@[i] == made[i]);
                }
            }
        }
        let ghost before = out.all();
        let mut d = Diagnostics::new();
        std::mem::swap(&mut d, &mut self.diags);
        let ghost dd = d.all();
        out.append(d);
        proof {
            assert(out.all().take(before.len() as int) =~= before);
            assert(toks@.drop_last() =~= made);
            crate::diagnostics::lemma_count_concat(before, dd, Code::E103);
            lemma_nested_push(made, toks@.last(), count_code(dd, Code::E103) as int);
            assert(made.push(toks@.last()) =~= toks@);
        }
        toks
    }

    /// Lexes one physical line. Blank and comment-only lines give no tokens.
    fn lex_line(&mut self)
        requires
            old(self).inv(),
            old(self).pos < old(self).n,
        ensures
            final(self).inv(),
            final(self).same_text(old(self)),
            final(self).pos > old(self).pos,
    {
        let line_start = self.here();
        let mut indent: u32 = 0;
        let ghost p0 = self.pos;
        while self.pos < self.n && (self.cs[self.pos] == ' ' || self.cs[self.pos] == '\t')
            invariant
                self.inv(),
                self.cs@ == old(self).cs@,
                self.n == old(self).n,
                self.tokens@ == old(self).tokens@,
                self.bpos >= old(self).bpos,
                line_start == old(self).bpos,
                p0 <= self.pos,
                indent == self.pos - p0,
            decreases self.n - self.pos,
        {
            if self.cs[self.pos] == '\t' {
                let p = self.here();
                self.diags.emit_with_hint(
                    codes::LEX_TAB_INDENT,
                    Span::new(p, if p < u32::MAX { p + 1 } else { p }),
                    String::from_str("タブによるインデントは使えません"),
                    String::from_str("半角スペース2個を使ってください"),
                );
            }
            proof {
                lemma_byte_len_take_mono(self.cs@, self.pos as int + 1, self.n as int);
                crate::text::lemma_byte_len_ge_len(self.cs@.take(self.pos as int + 1));
                assert(self.cs@.take(self.n as int) =~= self.cs@);
                crate::text::lemma_byte_len_ge_len(self.cs@);
            }
            indent = indent + 1;
            self.bump();
        }
        // blank and comment lines take no part in indentation
        if self.pos >= self.n {
            return;
        }
        if self.peek_is('\n') {
            self.bump();
            return;
        }
        if self.peek_is('\r') {
            self.bump();
            if self.peek_is('\n') {
                self.bump();
            }
            return;
        }
        if self.peek_is('#') {
            self.skip_to_line_end();
            return;
        }
        if self.bracket_depth == 0 {
            let current = self.indent_stack[self.indent_stack.len() - 1];
            let sp = Span::new(line_start, self.here());
            if indent > current {
                self.open_block(indent, sp.start, sp.end);
            } else if indent < current {
                while self.indent_stack.len() > 1
                    && self.indent_stack[self.indent_stack.len() - 1] > indent
                    invariant
                        self.inv(),
                        self.cs@ == old(self).cs@,
                        self.n == old(self).n,
                        self.pos >= old(self).pos,
                        self.pos < self.n,
                        sp.start <= sp.end <= self.bpos,
                        self.starts_by(sp.start),
                    decreases self.indent_stack@.len(),
                {
                    self.close_block(sp.start, sp.end);
                }
                if self.indent_stack[self.indent_stack.len() - 1] != indent {
                    self.bad_indent(indent, sp);
                }
            }
        }
        let mut had_token = false;
        let mut done = false;
        while !done
            invariant
                self.inv(),
                self.cs@ == old(self).cs@,
                self.n == old(self).n,
                self.pos >= old(self).pos,
                old(self).pos < self.n,
                self.pos > old(self).pos || (!done && self.pos < self.n),
            decreases self.n - self.pos + (if done {
                0int
            } else {
                1int
            }),
        {
            if self.pos >= self.n {
                done = true;
            } else if self.peek_is('\n') {
                self.bump();
                done = true;
            } else if self.peek_is('\r') {
                self.bump();
                if self.peek_is('\n') {
                    self.bump();
                }
                done = true;
            } else if self.peek_is('#') {
                self.skip_to_line_end();
                done = true;
            } else if self.peek_is(' ') || self.peek_is('\t') {
                self.bump();
            } else {
                self.lex_token();
                had_token = true;
            }
        }
        if had_token {
            let p = self.here();
            self.push(TokenKind::Newline, p, p);
        }
    }

    fn skip_to_line_end(&mut self)
        requires
            old(self).inv(),
        ensures
            final(self).inv(),
            final(self).same_text(old(self)),
            old(self).pos < old(self).n ==> final(self).pos > old(self).pos,
    {
        let mut done = false;
        while !done && self.pos < self.n
            invariant
                self.inv(),
                self.cs@ == old(self).cs@,
                self.n == old(self).n,
                self.pos >= old(self).pos,
                old(self).pos < old(self).n && !done ==> self.pos == old(self).pos || self.pos > old(self).pos,
                done ==> self.pos > old(self).pos,
            decreases self.n - self.pos,
        {
            let c = self.cs[self.pos];
            self.bump();
            if c == '\n' {
                done = true;
            }
        }
    }

    /// Lexes one token starting at a character that is not blank, newline or `#`.
    fn lex_token(&mut self)
        requires
            old(self).inv(),
            old(self).pos < old(self).n,
        ensures
            final(self).inv(),
            final(self).same_text(old(self)),
            final(self).pos > old(self).pos,
    {
        let start = self.here();
        let c = self.cs[self.pos];
        if is_digit_exec(c) {
            self.lex_number();
        } else if c == '"' {
            self.lex_text();
        } else if c == '\'' {
            self.lex_char();
        } else if is_alpha_exec(c) || c == '_' {
            self.lex_ident();
        } else {
            let p0 = self.pos;
            self.bump();
            let kind: TokenKind;
            if c == '>' {
                if self.peek_is('=') {
                    self.bump();
                    kind = TokenKind::Ge;
                } else {
                    kind = TokenKind::Gt;
                }
            } else if c == '<' {
                if self.peek_is('=') {
                    self.bump();
                    kind = TokenKind::Le;
                } else {
                    kind = TokenKind::Lt;
                }
            } else if c == '=' {
                if self.peek_is('=') {
                    self.bump();
                    kind = TokenKind::EqEq;
                } else if self.peek_is('>') {
                    self.bump();
                    kind = TokenKind::Arrow;
                } else {
                    kind = TokenKind::Eq;
                }
            } else if c == '!' {
                if self.peek_is('=') {
                    self.bump();
                    kind = TokenKind::NotEq;
                } else {
                    kind = TokenKind::Bang;
                }
            } else if c == '|' {
                kind = TokenKind::Pipe;
            } else if c == '[' || c == '{' || c == '(' {
                if self.bracket_depth < u32::MAX {
                    self.bracket_depth = self.bracket_depth + 1;
                }
                kind = if c == '[' {
                    TokenKind::LBracket
                } else if c == '{' {
                    TokenKind::LBrace
                } else {
                    TokenKind::LParen
                };
            } else if c == ']' || c == '}' || c == ')' {
                if self.bracket_depth > 0 {
                    self.bracket_depth = self.bracket_depth - 1;
                }
                kind = if c == ']' {
                    TokenKind::RBracket
                } else if c == '}' {
                    TokenKind::RBrace
                } else {
                    TokenKind::RParen
                };
            } else if c == '.' {
                kind = TokenKind::Dot;
            } else if c == ',' {
                kind = TokenKind::Comma;
            } else if c == ':' {
                kind = TokenKind::Colon;
            } else if c == '+' {
                kind = TokenKind::Plus;
            } else if c == '-' {
                kind = TokenKind::Minus;
            } else if c == '*' {
                kind = TokenKind::Star;
            } else if c == '/' {
                kind = TokenKind::Slash;
            } else if c == '%' {
                kind = TokenKind::Percent;
            } else {
                let text = sub_chars(&self.cs, p0, p0 + 1);
                let shown = string_from_chars(text.as_slice());
                let end = self.here();
                self.diags.emit(
                    codes::LEX_INVALID_CHAR,
                    Span::new(start, end),
                    cat3("使用できない文字です: `", shown.as_str(), "`"),
                );
                return;
            }
            let end = self.here();
            self.push(kind, start, end);
        }
    }

    fn lex_number(&mut self)
        requires
            old(self).inv(),
            old(self).pos < old(self).n,
            is_digit(old(self).cs@[old(self).pos as int]),
        ensures
            final(self).inv(),
            final(self).same_text(old(self)),
            final(self).pos > old(self).pos,
    {
        let start = self.here();
        let s0 = self.pos;
        while self.pos < self.n && is_digit_exec(self.cs[self.pos])
            invariant
                self.inv(),
                self.cs@ == old(self).cs@,
                self.n == old(self).n,
                self.tokens@ == old(self).tokens@,
                self.bpos >= old(self).bpos,
                start == old(self).bpos,
                s0 == old(self).pos,
                s0 <= self.pos,
                self.pos == s0 ==> s0 < self.n && is_digit(self.cs@[s0 as int]),
                forall|k: int| s0 <= k < self.pos ==> is_digit(#[trigger] self.cs@[k]),
            decreases self.n - self.pos,
        {
            self.bump();
        }
        let mut is_decimal = false;
        let ghost dot = self.pos as int;
        if self.peek_is('.') && self.pos + 1 < self.n && is_digit_exec(self.cs[self.pos + 1]) {
            is_decimal = true;
            self.bump();
            while self.pos < self.n && is_digit_exec(self.cs[self.pos])
                invariant
                    self.inv(),
                    self.cs@ == old(self).cs@,
                    self.n == old(self).n,
                    self.tokens@ == old(self).tokens@,
                    self.bpos >= old(self).bpos,
                    start == old(self).bpos,
                    s0 < self.pos,
                    s0 < dot < self.pos,
                    dot + 1 < self.n,
                    self.cs@[dot] == '.',
                    is_digit(self.cs@[dot + 1]),
                    forall|k: int| s0 <= k < dot ==> is_digit(#[trigger] self.cs@[k]),
                    forall|k: int| dot < k < self.pos ==> is_digit(#[trigger] self.cs@[k]),
                decreases self.n - self.pos,
            {
                self.bump();
            }
        }
        let text = sub_chars(&self.cs, s0, self.pos);
        let text_s = string_from_chars(text.as_slice());
        let end = self.here();
        let span = Span::new(start, end);
        if is_decimal {
            match parse_decimal(text_s.as_str()) {
                Some(d) => {
                    proof {
                        let tok = Token { kind: TokenKind::DecimalLit(d), span: Span { start, end } };
                        let w = self.cs@.subrange(s0 as int, self.pos as int);
                        assert(at_chars(self.cs@, tok, s0 as int, self.pos as int));
                        let p = dot - s0;
                        assert(w[p] == '.');
                        assert forall|k: int| 0 <= k < w.len() && k != p implies is_digit(#[trigger] w[k]) by {
                            assert(w[k] == self.cs@[s0 + k]);
                        }
                        assert(decimal_written(w));
                        assert(reads_as(self.cs@, tok));
                    }
                    self.push(TokenKind::DecimalLit(d), start, end)
                },
                None => self.diags.emit(
                    codes::LEX_BAD_NUMBER,
                    span,
                    cat3("Decimal リテラルとして解釈できません: `", text_s.as_str(), "`"),
                ),
            }
        } else {
            match parse_i64_digits(&self.cs, s0, self.pos) {
                Some(v) => {
                    proof {
                        let tok = Token { kind: TokenKind::IntLit(v), span: Span { start, end } };
                        assert(at_chars(self.cs@, tok, s0 as int, self.pos as int));
                    }
                    self.push(TokenKind::IntLit(v), start, end)
                },
                None => self.diags.emit(
                    codes::LEX_BAD_NUMBER,
                    span,
                    cat3("Int リテラルの範囲を超えています: `", text_s.as_str(), "`"),
                ),
            }
        }
    }

    fn lex_text(&mut self)
        requires
            old(self).inv(),
            old(self).pos < old(self).n,
            old(self).cs@[old(self).pos as int] == '"',
        ensures
            final(self).inv(),
            final(self).same_text(old(self)),
            final(self).pos > old(self).pos,
            text_scan(old(self).cs@, old(self).pos + 1) matches Some((v, e)) ==> final(self).tokens@.len() == old(self).tokens@.len()
                + 1 && final(self).tokens@.last().kind == TokenKind::TextLit(final(self).tokens@.last().kind->TextLit_0)
                && final(self).tokens@.last().kind->TextLit_0@ == v,
    {
        let start = self.here();
        let ghost p0 = self.pos;
        self.bump();
        let mut value: Vec<char> = Vec::new();
        let mut closed = false;
        while !closed
            invariant
                self.inv(),
                self.cs@ == old(self).cs@,
                self.n == old(self).n,
                self.tokens@ == old(self).tokens@,
                self.bpos >= old(self).bpos,
                start == old(self).bpos,
                self.pos > old(self).pos,
                p0 == old(self).pos,
                !closed ==> text_scan(self.cs@, p0 + 1) == prefixed(value@, text_scan(self.cs@, self.pos as int)),
                closed ==> text_scan(self.cs@, p0 + 1) == Some((value@, self.pos as int)),
            decreases self.n - self.pos,
        {
            let ghost vb = value@;
            let ghost pb = self.pos as int;
            if self.pos >= self.n || self.peek_is('\n') || self.peek_is('\r') {
                let end = self.here();
                self.diags.emit(
                    codes::LEX_UNTERMINATED_TEXT,
                    Span::new(start, end),
                    String::from_str("Text リテラルが閉じられていません"),
                );
                return;
            }
            let c = self.cs[self.pos];
            if c == '"' {
                self.bump();
                closed = true;
                proof {
                    assert(vb + Seq::<char>::empty() =~= vb);
                }
            } else if c == '\\' {
                let esc_start = self.here();
                self.bump();
                if self.peek_is('n') {
                    value.push('\n');
                    self.bump();
                    proof {
                        lemma_prefixed_assoc(vb, seq!['\n'], text_scan(self.cs@, self.pos as int));
                        assert(vb.push('\n') =~= vb + seq!['\n']);
                    }
                } else if self.peek_is('t') {
                    value.push('\t');
                    self.bump();
                    proof {
                        lemma_prefixed_assoc(vb, seq!['\t'], text_scan(self.cs@, self.pos as int));
                        assert(vb.push('\t') =~= vb + seq!['\t']);
                    }
                } else if self.peek_is('\\') {
                    value.push('\\');
                    self.bump();
                    proof {
                        lemma_prefixed_assoc(vb, seq!['\\'], text_scan(self.cs@, self.pos as int));
                        assert(vb.push('\\') =~= vb + seq!['\\']);
                    }
                } else if self.peek_is('"') {
                    value.push('"');
                    self.bump();
                    proof {
                        lemma_prefixed_assoc(vb, seq!['"'], text_scan(self.cs@, self.pos as int));
                        assert(vb.push('"') =~= vb + seq!['"']);
                    }
                } else {
                    let e = self.here();
                    let e1 = if e < u32::MAX { e + 1 } else { e };
                    self.diags.emit(
                        codes::LEX_BAD_ESCAPE,
                        Span::new(esc_start, e1),
                        String::from_str("不正なエスケープシーケンスです"),
                    );
                    if self.pos < self.n {
                        self.bump();
                    }
                }
            } else {
                value.push(c);
                self.bump();
                proof {
                    lemma_prefixed_assoc(vb, seq![c], text_scan(self.cs@, self.pos as int));
                    assert(vb.push(c) =~= vb + seq![c]);
                }
            }
        }
        let s = string_from_chars(value.as_slice());
        let end = self.here();
        proof {
            let tok = Token { kind: TokenKind::TextLit(s), span: Span { start, end } };
            assert(at_chars(self.cs@, tok, p0 as int, self.pos as int));
            assert(reads_as(self.cs@, tok));
        }
        self.push(TokenKind::TextLit(s), start, end);
    }

    fn lex_char(&mut self)
        requires
            old(self).inv(),
            old(self).pos < old(self).n,
            old(self).cs@[old(self).pos as int] == '\'',
        ensures
            final(self).inv(),
            final(self).same_text(old(self)),
            final(self).pos > old(self).pos,
            char_scan(old(self).cs@, old(self).pos + 1) matches Some((c, e)) ==> final(self).tokens@ == old(self).tokens@.push(
                Token {
                    kind: TokenKind::CharLit(c),
                    span: Span { start: old(self).bpos as u32, end: byte_len(old(self).cs@.take(e)) as u32 },
                },
            ),
    {
        let start = self.here();
        let ghost p0 = self.pos;
        self.bump();
        let ch: char;
        if self.pos >= self.n || self.peek_is('\n') || self.peek_is('\r') || self.peek_is('\'') {
            let e = self.here();
            let e1 = if e < u32::MAX { e + 1 } else { e };
            self.diags.emit(
                codes::LEX_BAD_CHAR,
                Span::new(start, e1),
                String::from_str("Char リテラルが不正です"),
            );
            if self.pos < self.n {
                self.bump();
            }
            return;
        } else if self.peek_is('\\') {
            self.bump();
            if self.peek_is('n') {
                ch = '\n';
            } else if self.peek_is('t') {
                ch = '\t';
            } else if self.peek_is('\\') {
                ch = '\\';
            } else if self.peek_is('\'') {
                ch = '\'';
            } else {
                let e = self.here();
                let e1 = if e < u32::MAX { e + 1 } else { e };
                self.diags.emit(
                    codes::LEX_BAD_ESCAPE,
                    Span::new(start, e1),
                    String::from_str("不正なエスケープシーケンスです"),
                );
                ch = '\0';
            }
            if self.pos < self.n {
                self.bump();
            }
        } else {
            ch = self.cs[self.pos];
            self.bump();
        }
        if self.peek_is('\'') {
            self.bump();
            let end = self.here();
            proof {
                let tok = Token { kind: TokenKind::CharLit(ch), span: Span { start, end } };
                assert(char_scan(self.cs@, p0 + 1) == Some((ch, self.pos as int)));
                assert(at_chars(self.cs@, tok, p0 as int, self.pos as int));
                assert(reads_as(self.cs@, tok));
            }
            self.push(TokenKind::CharLit(ch), start, end);
        } else {
            let end = self.here();
            self.diags.emit(
                codes::LEX_BAD_CHAR,
                Span::new(start, end),
                String::from_str("Char リテラルが `'` で閉じられていません"),
            );
        }
    }

    fn lex_ident(&mut self)
        requires
            old(self).inv(),
            old(self).pos < old(self).n,
            is_alpha(old(self).cs@[old(self).pos as int]) || old(self).cs@[old(self).pos as int] == '_',
        ensures
            final(self).inv(),
            final(self).same_text(old(self)),
            final(self).pos > old(self).pos,
            final(self).tokens@.len() == old(self).tokens@.len() + 1,
            ({
                let w = final(self).cs@.subrange(old(self).pos as int, final(self).pos as int);
                let k = final(self).tokens@.last().kind;
                &&& forall|i: int| 0 <= i < w.len() ==> is_ident_char(#[trigger] w[i])
                &&& (final(self).pos == final(self).n || !is_ident_char(final(self).cs@[final(self).pos as int]))
                &&& match keyword(w) {
                    Some(kw) => k == kw,
                    None => if is_upper(w[0]) {
                        k matches TokenKind::UpperIdent(t) && t@ == w
                    } else {
                        k matches TokenKind::LowerIdent(t) && t@ == w
                    },
                }
            }),
    {
        let start = self.here();
        let s0 = self.pos;
        while self.pos < self.n && is_ident_char_exec(self.cs[self.pos])
            invariant
                self.inv(),
                self.cs@ == old(self).cs@,
                self.n == old(self).n,
                self.tokens@ == old(self).tokens@,
                self.bpos >= old(self).bpos,
                start == old(self).bpos,
                s0 == old(self).pos,
                s0 <= self.pos,
                forall|k: int| s0 <= k < self.pos ==> is_ident_char(#[trigger] self.cs@[k]),
            decreases self.n - self.pos,
        {
            self.bump();
        }
        let e0 = self.pos;
        let end = self.here();
        let ghost w = self.cs@.subrange(s0 as int, e0 as int);
        proof {
            assert forall|i: int| 0 <= i < w.len() implies is_ident_char(#[trigger] w[i]) by {
                assert(w[i] == self.cs@[s0 + i]);
            }
            assert(w[0] == self.cs@[s0 as int]);
        }
        let kind = if chars_match(&self.cs, s0, e0, "import") {
            TokenKind::KwImport
        } else if chars_match(&self.cs, s0, e0, "as") {
            TokenKind::KwAs
        } else if chars_match(&self.cs, s0, e0, "T") {
            TokenKind::KwT
        } else if chars_match(&self.cs, s0, e0, "C") {
            TokenKind::KwC
        } else if chars_match(&self.cs, s0, e0, "R") {
            TokenKind::KwR
        } else if chars_match(&self.cs, s0, e0, "F") {
            TokenKind::KwF
        } else if chars_match(&self.cs, s0, e0, "when") {
            TokenKind::KwWhen
        } else if chars_match(&self.cs, s0, e0, "match") {
            TokenKind::KwMatch
        } else if chars_match(&self.cs, s0, e0, "at") {
            TokenKind::KwAt
        } else if chars_match(&self.cs, s0, e0, "true") {
            TokenKind::KwTrue
        } else if chars_match(&self.cs, s0, e0, "false") {
            TokenKind::KwFalse
        } else if chars_match(&self.cs, s0, e0, "and") {
            TokenKind::KwAnd
        } else if chars_match(&self.cs, s0, e0, "or") {
            TokenKind::KwOr
        } else if chars_match(&self.cs, s0, e0, "not") {
            TokenKind::KwNot
        } else if chars_match(&self.cs, s0, e0, "Void") {
            TokenKind::KwVoid
        } else if chars_match(&self.cs, s0, e0, "Error") {
            TokenKind::KwError
        } else if chars_match(&self.cs, s0, e0, "List") {
            TokenKind::KwList
        } else if chars_match(&self.cs, s0, e0, "from") {
            TokenKind::KwFrom
        } else {
            let text = sub_chars(&self.cs, s0, e0);
            let t = string_from_chars(text.as_slice());
            if is_upper_exec(self.cs[s0]) {
                TokenKind::UpperIdent(t)
            } else {
                TokenKind::LowerIdent(t)
            }
        };
        proof {
            let tok = Token { kind, span: Span { start, end } };
            assert(at_chars(self.cs@, tok, s0 as int, e0 as int));
            assert(word_read(w, kind));
        }
        self.push(kind, start, end);
    }
}

} // verus!
