//! Recursive-descent parser.
use crate::ast::{
    BinOp, Binding, Block, ConstDecl, CtorDecl, Decl, Expr, FieldDecl, FlowDecl, FlowMatchArm,
    FlowSignature, FlowStep, ImportDecl, MatchArm, Program, RecordFieldInit, RuleDecl, RuleKind,
    TypeDecl, TypeDeclKind, TypeExpr, UnaryOp,
};
use crate::diagnostics::{codes, keeps, Diagnostics};
use crate::span::Span;
use crate::text_fmt::{cat2, cat3, cat6};
use crate::token::{spec_tag, Token, TokenKind};
use vstd::prelude::*;
use vstd::string::*;

verus! {

/// Parses a token list. The list should end with an `Eof` token (the lexer's
/// output always does); an `Eof` is supplied when it does not. Diagnostics are
/// appended to `diags`. A first declaration that is a one-line usage type or
/// constant, or a record type of one field per line, comes back as written.
pub fn parse(tokens: Vec<Token>, diags: &mut Diagnostics) -> (p: Program)
    ensures
        final(diags).file() == old(diags).file(),
        final(diags).all().take(old(diags).all().len() as int) == old(diags).all(),
        final(diags).all().len() >= old(diags).all().len(),
        blank_from(tokens@, 0) ==> p.imports@.len() == 0 && p.decls@.len() == 0
            && final(diags).all() == old(diags).all(),
        first_simple_decl(tokens@, 0) matches Some(d) ==> p.decls@.len() >= 1 && p.decls@[0] == d,
        first_record_decl(tokens@, 0) matches Some((n, fs)) ==> p.decls@.len() >= 1 && is_record_decl(p.decls@[0], n, fs),
{
    let ghost input = tokens@;
    let mut tokens = tokens;
    let needs_eof = tokens.len() == 0 || !tokens[tokens.len() - 1].kind.is_eof();
    if needs_eof {
        let end = if tokens.len() == 0 {
            Span::new(0, 0)
        } else {
            let last = tokens[tokens.len() - 1].span;
            Span::new(last.end, last.end)
        };
        let ghost t0 = tokens@;
        let eof = Token { kind: TokenKind::Eof, span: end };
        tokens.push(eof);
        proof {
            if first_simple_decl(t0, 0) is Some {
                lemma_first_decl_push(t0, eof, 0);
            }
            if first_record_decl(t0, 0) is Some {
                lemma_first_record_push(t0, eof, 0);
            }
        }
    }
    let mut local = Diagnostics::new();
    local.set_file(diags.current());
    proof {
        if blank_from(input, 0) {
            assert(blank_from(tokens@, 0));
        }
    }
    let mut parser = Parser { tokens, pos: 0, diags: local };
    let prog = parser.parse_program();
    let ghost before = diags.all();
    let mut d = Diagnostics::new();
    std::mem::swap(&mut d, &mut parser.diags);
    diags.append(d);
    proof {
        assert(diags.all().take(before.len() as int) =~= before);
        if blank_from(input, 0) {
            assert(diags.all() =~= before);
        }
    }
    prog
}

impl TokenKind {
    pub fn is_eof(&self) -> (b: bool)
        ensures
            b == (*self is Eof),
    {
        match self {
            TokenKind::Eof => true,
            _ => false,
        }
    }
}

struct Parser {
    tokens: Vec<Token>,
    pos: usize,
    diags: Diagnostics,
}

/// The word of a lower-case identifier token.
pub open spec fn lower_word(k: TokenKind) -> Option<Seq<char>> {
    match k {
        TokenKind::LowerIdent(s) => Some(s@),
        _ => None,
    }
}

/// The expression is the one-segment name `w`.
pub open spec fn simple_name(e: Expr, w: Seq<char>) -> bool {
    &&& e matches Expr::Name { path, .. }
    &&& path@.len() == 1
    &&& path@[0].0@ == w
}

/// The expression is a call of the one-segment name `w` with at least one
/// argument.
pub open spec fn simple_call(e: Expr, w: Seq<char>) -> bool {
    &&& e matches Expr::Call { path, args, .. }
    &&& path@.len() == 1
    &&& path@[0].0@ == w
    &&& args@.len() >= 1
}

/// Is the kind one that starts a primary expression.
pub open spec fn starts_primary_kind(k: TokenKind) -> bool {
    match k {
        TokenKind::IntLit(_) | TokenKind::DecimalLit(_) | TokenKind::TextLit(_)
        | TokenKind::CharLit(_) | TokenKind::KwTrue | TokenKind::KwFalse | TokenKind::KwVoid
        | TokenKind::UpperIdent(_) | TokenKind::LowerIdent(_) | TokenKind::LParen => true,
        _ => false,
    }
}

/// Scanning `toks` from `i` with `depth` brackets open: does a `>` at depth
/// zero come before the end of the line? `(`, `{`, `[` and `<` open a bracket
/// (the count stops at `u32::MAX`), `)`, `}` and `]` close one (not below zero),
/// and a `>` inside brackets closes one.
pub open spec fn arrow_on_line(toks: Seq<Token>, i: int, depth: int) -> bool
    decreases toks.len() - i,
{
    if i < 0 || i >= toks.len() {
        false
    } else {
        match toks[i].kind {
            TokenKind::Newline | TokenKind::Eof => false,
            TokenKind::LParen | TokenKind::LBrace | TokenKind::LBracket | TokenKind::Lt =>
                arrow_on_line(toks, i + 1, if depth < u32::MAX { depth + 1 } else { depth }),
            TokenKind::RParen | TokenKind::RBrace | TokenKind::RBracket =>
                arrow_on_line(toks, i + 1, if depth > 0 { depth - 1 } else { depth }),
            TokenKind::Gt => if depth == 0 { true } else { arrow_on_line(toks, i + 1, depth - 1) },
            _ => arrow_on_line(toks, i + 1, depth),
        }
    }
}

/// A binding begins at `i`: a lower-case name followed by `:` or `=`.
pub open spec fn binding_start(toks: Seq<Token>, i: int) -> bool {
    0 <= i && i + 1 < toks.len() && toks[i].kind is LowerIdent && (toks[i + 1].kind is Colon || toks[i + 1].kind is Eq)
}

/// The usage-type declaration `T Name [Inner]` written on one line from `i`.
pub open spec fn usage_decl_at(toks: Seq<Token>, i: int) -> Option<TypeDecl> {
    if 0 <= i && i + 5 < toks.len() && toks[i].kind is KwT && toks[i + 2].kind is LBracket
        && toks[i + 4].kind is RBracket && toks[i + 5].kind is Newline {
        match (toks[i + 1].kind, toks[i + 3].kind) {
            (TokenKind::UpperIdent(n), TokenKind::UpperIdent(inner)) => Some(TypeDecl {
                name: n,
                name_span: toks[i + 1].span,
                kind: TypeDeclKind::Usage(TypeExpr::Named { qualifier: None, name: inner, span: toks[i + 3].span }),
            }),
            _ => None,
        }
    } else {
        None
    }
}

/// The fields of a record declaration written from token `p` on, each
/// `name Type` on a line of its own (blank lines allowed), up to its `}`:
/// the fields in written order and the position of the `}`.
pub open spec fn record_fields_at(toks: Seq<Token>, p: int) -> Option<(Seq<FieldDecl>, int)>
    decreases toks.len() - p,
{
    if p < 0 || p + 2 >= toks.len() {
        None
    } else if toks[p].kind is Newline {
        record_fields_at(toks, p + 1)
    } else if toks[p].kind is RBrace {
        Some((Seq::empty(), p))
    } else {
        match (toks[p].kind, toks[p + 1].kind) {
            (TokenKind::LowerIdent(n), TokenKind::UpperIdent(t)) => {
                let f = FieldDecl {
                    name: n,
                    name_span: toks[p].span,
                    ty: TypeExpr::Named { qualifier: None, name: t, span: toks[p + 1].span },
                };
                if toks[p + 2].kind is Newline || toks[p + 2].kind is RBrace {
                    let next = if toks[p + 2].kind is Newline {
                        p + 3
                    } else {
                        p + 2
                    };
                    match record_fields_at(toks, next) {
                        Some((rest, e)) => Some((seq![f] + rest, e)),
                        None => None,
                    }
                } else {
                    None
                }
            },
            _ => None,
        }
    }
}

/// The record declaration `T Name { ... }` written from `i`, its fields as
/// `record_fields_at` reads them and a line break after its `}`: the fields.
pub open spec fn record_decl_at(toks: Seq<Token>, i: int) -> Option<Seq<FieldDecl>> {
    if 0 <= i && i + 3 < toks.len() && toks[i].kind is KwT && toks[i + 1].kind is UpperIdent && toks[i + 2].kind is LBrace {
        match record_fields_at(toks, i + 3) {
            Some((fs, e)) => if 0 <= e && e + 1 < toks.len() && toks[e + 1].kind is Newline {
                Some(fs)
            } else {
                None
            },
            None => None,
        }
    } else {
        None
    }
}

/// The fields read so far and those that `record_fields_at` reads from `p`
/// make up `fs`, the last `}` at `e`.
pub open spec fn fields_progress(toks: Seq<Token>, p: int, done: Seq<FieldDecl>, fs: Seq<FieldDecl>, e: int) -> bool {
    match record_fields_at(toks, p) {
        Some((rest, e2)) => e2 == e && fs == done + rest,
        None => false,
    }
}

/// The declaration is a record type with the fields `fs`.
pub open spec fn is_record_with(r: Option<TypeDecl>, fs: Seq<FieldDecl>) -> bool {
    &&& r matches Some(td)
    &&& td.kind matches TypeDeclKind::Record(v)
    &&& v@ == fs
}

/// Blank lines before the fields change nothing of what is read.
proof fn lemma_record_fields_skip(toks: Seq<Token>, p: int, q: int)
    requires
        0 <= p <= q,
        forall|i: int| p <= i < q ==> #[trigger] toks[i].kind is Newline,
    ensures
        record_fields_at(toks, p) == record_fields_at(toks, q),
    decreases q - p,
{
    if p < q {
        lemma_record_fields_skip(toks, p + 1, q);
    }
}

/// The constant declaration `C name = literal` written on one line from `i`,
/// its value a literal other than a text.
pub open spec fn const_decl_at(toks: Seq<Token>, i: int) -> Option<ConstDecl> {
    if 0 <= i && i + 4 < toks.len() && toks[i].kind is KwC && toks[i + 2].kind is Eq && toks[i + 4].kind is Newline {
        match (toks[i + 1].kind, literal_of(toks[i + 3].kind, toks[i + 3].span)) {
            (TokenKind::LowerIdent(n), Some(x)) => Some(ConstDecl { name: n, name_span: toks[i + 1].span, value: x }),
            _ => None,
        }
    } else {
        None
    }
}

/// The one-line declaration written from `i`: a usage type `T Name [Inner]`
/// or a constant `C name = literal`.
pub open spec fn simple_decl_at(toks: Seq<Token>, i: int) -> Option<Decl> {
    match usage_decl_at(toks, i) {
        Some(td) => Some(Decl::Type(td)),
        None => match const_decl_at(toks, i) {
            Some(cd) => Some(Decl::Const(cd)),
            None => None,
        },
    }
}

/// The one-line declaration that the first token from `i` that is not a
/// line end begins, if it begins one.
pub open spec fn first_simple_decl(toks: Seq<Token>, i: int) -> Option<Decl>
    decreases toks.len() - i,
{
    if i < 0 || i >= toks.len() {
        None
    } else if toks[i].kind is Newline {
        first_simple_decl(toks, i + 1)
    } else {
        simple_decl_at(toks, i)
    }
}

/// Skipping line ends from `p` to `q` leaves the same first declaration.
proof fn lemma_first_decl_skip(toks: Seq<Token>, p: int, q: int)
    requires
        0 <= p <= q < toks.len(),
        forall|i: int| p <= i < q ==> #[trigger] toks[i].kind is Newline,
        !(toks[q].kind is Newline),
    ensures
        first_simple_decl(toks, p) == simple_decl_at(toks, q),
    decreases q - p,
{
    if p < q {
        lemma_first_decl_skip(toks, p + 1, q);
    }
}

/// A token appended at the end does not change a declaration found before it.
proof fn lemma_first_decl_push(toks: Seq<Token>, x: Token, i: int)
    requires
        0 <= i,
        first_simple_decl(toks, i) is Some,
    ensures
        first_simple_decl(toks.push(x), i) == first_simple_decl(toks, i),
    decreases toks.len() - i,
{
    if i < toks.len() && toks[i].kind is Newline {
        lemma_first_decl_push(toks, x, i + 1);
    } else if i < toks.len() {
        assert(usage_decl_at(toks.push(x), i) == usage_decl_at(toks, i));
        assert(const_decl_at(toks.push(x), i) == const_decl_at(toks, i));
    }
}

/// The record declaration written from `i`: its name and fields.
pub open spec fn record_head_at(toks: Seq<Token>, i: int) -> Option<(String, Seq<FieldDecl>)> {
    match record_decl_at(toks, i) {
        Some(fs) => match toks[i + 1].kind {
            TokenKind::UpperIdent(n) => Some((n, fs)),
            _ => None,
        },
        None => None,
    }
}

/// The record declaration that the first token from `i` that is not a line
/// end begins, if it begins one.
pub open spec fn first_record_decl(toks: Seq<Token>, i: int) -> Option<(String, Seq<FieldDecl>)>
    decreases toks.len() - i,
{
    if i < 0 || i >= toks.len() {
        None
    } else if toks[i].kind is Newline {
        first_record_decl(toks, i + 1)
    } else {
        record_head_at(toks, i)
    }
}

/// The declaration is the record type `n` with the fields `fs`.
pub open spec fn is_record_decl(d: Decl, n: String, fs: Seq<FieldDecl>) -> bool {
    &&& d matches Decl::Type(td)
    &&& td.name == n
    &&& td.kind matches TypeDeclKind::Record(v)
    &&& v@ == fs
}

/// Skipping line ends from `p` to `q` leaves the same first record.
proof fn lemma_first_record_skip(toks: Seq<Token>, p: int, q: int)
    requires
        0 <= p <= q < toks.len(),
        forall|i: int| p <= i < q ==> #[trigger] toks[i].kind is Newline,
        !(toks[q].kind is Newline),
    ensures
        first_record_decl(toks, p) == record_head_at(toks, q),
    decreases q - p,
{
    if p < q {
        lemma_first_record_skip(toks, p + 1, q);
    }
}

/// A token appended at the end does not change the fields read before it.
proof fn lemma_record_fields_push(toks: Seq<Token>, x: Token, p: int)
    requires
        record_fields_at(toks, p) is Some,
    ensures
        record_fields_at(toks.push(x), p) == record_fields_at(toks, p),
    decreases toks.len() - p,
{
    let t2 = toks.push(x);
    assert(t2[p] == toks[p] && t2[p + 1] == toks[p + 1] && t2[p + 2] == toks[p + 2]);
    if toks[p].kind is Newline {
        lemma_record_fields_push(toks, x, p + 1);
    } else if !(toks[p].kind is RBrace) {
        if toks[p + 2].kind is Newline {
            lemma_record_fields_push(toks, x, p + 3);
        } else {
            lemma_record_fields_push(toks, x, p + 2);
        }
    }
}

/// A token appended at the end does not change a record found before it.
proof fn lemma_first_record_push(toks: Seq<Token>, x: Token, i: int)
    requires
        0 <= i,
        first_record_decl(toks, i) is Some,
    ensures
        first_record_decl(toks.push(x), i) == first_record_decl(toks, i),
    decreases toks.len() - i,
{
    let t2 = toks.push(x);
    if i < toks.len() && toks[i].kind is Newline {
        lemma_first_record_push(toks, x, i + 1);
    } else if i < toks.len() {
        assert(record_head_at(toks, i) is Some);
        assert(record_decl_at(toks, i) is Some);
        assert(record_fields_at(toks, i + 3) is Some);
        lemma_record_fields_push(toks, x, i + 3);
        let (_, e) = record_fields_at(toks, i + 3)->0;
        assert(0 <= e && e + 1 < toks.len());
        assert(t2[e + 1] == toks[e + 1]);
        assert(t2[i] == toks[i] && t2[i + 1] == toks[i + 1] && t2[i + 2] == toks[i + 2]);
        assert(record_decl_at(t2, i) == record_decl_at(toks, i));
    }
}

/// Is the kind a binary operator.
pub open spec fn binop_kind(k: TokenKind) -> bool {
    k is Star || k is Slash || k is Percent || k is Plus || k is Minus || k is Lt || k is Le || k is Gt
        || k is Ge || k is EqEq || k is NotEq || k is KwAnd || k is KwOr
}

/// From `i` on, `toks` holds nothing but line ends and the end of input.
pub open spec fn blank_from(toks: Seq<Token>, i: int) -> bool {
    forall|k: int| i <= k < toks.len() ==> (#[trigger] toks[k].kind is Newline || toks[k].kind is Eof)
}

/// The qualifier, name and name span of a construction-like expression.
pub open spec fn construct_head(e: Expr) -> Option<(Option<String>, String, Span)> {
    match e {
        Expr::From { qualifier, name, name_span, .. } => Some((qualifier, name, name_span)),
        Expr::Record { qualifier, name, name_span, .. } => Some((qualifier, name, name_span)),
        Expr::ListConstruct { qualifier, name, name_span, .. } => Some((qualifier, name, name_span)),
        Expr::Construct { qualifier, name, name_span, .. } => Some((qualifier, name, name_span)),
        _ => None,
    }
}

/// Is the kind a keyword that opens a top-level declaration.
pub open spec fn starts_decl_kind(k: TokenKind) -> bool {
    k is KwT || k is KwC || k is KwR || k is KwF || k is KwImport
}

/// The message reporting that `context` wanted `what` but `found` came.
pub open spec fn unexpected_message(context: Seq<char>, what: Seq<char>, found: TokenKind) -> Seq<char> {
    context + "には"@ + what + "が必要ですが、"@ + crate::token::kind_text(found) + "が見つかりました"@
}

/// The literal expression a literal token stands for, at span `sp`.
pub open spec fn literal_of(k: TokenKind, sp: Span) -> Option<Expr> {
    match k {
        TokenKind::IntLit(v) => Some(Expr::IntLit(v, sp)),
        TokenKind::DecimalLit(d) => Some(Expr::DecimalLit(d, sp)),
        TokenKind::CharLit(c) => Some(Expr::CharLit(c, sp)),
        TokenKind::KwTrue => Some(Expr::BoolLit(true, sp)),
        TokenKind::KwFalse => Some(Expr::BoolLit(false, sp)),
        TokenKind::KwVoid => Some(Expr::VoidLit(sp)),
        _ => None,
    }
}

/// The additive operator that a token stands for.
pub open spec fn additive_op(k: TokenKind) -> Option<BinOp> {
    match k {
        TokenKind::Plus => Some(BinOp::Add),
        TokenKind::Minus => Some(BinOp::Sub),
        _ => None,
    }
}

/// Is the kind `*`, `/` or `%`.
pub open spec fn multiplicative_kind(k: TokenKind) -> bool {
    k is Star || k is Slash || k is Percent
}

/// The literal at `i`, when it stands alone as an operand of `+` or `-`:
/// no `*`, `/` or `%` follows it.
pub open spec fn lone_operand(toks: Seq<Token>, i: int) -> Option<Expr> {
    if 0 <= i && i + 1 < toks.len() && !multiplicative_kind(toks[i + 1].kind) {
        literal_of(toks[i].kind, toks[i].span)
    } else {
        None
    }
}

/// Reads `+` / `-` and lone literal operands from `j` on, `acc` being what
/// was read before: each operator takes all that was read before it as its
/// left operand and the next operand as its right one. The expression and
/// the position where the chain ends.
pub open spec fn additive_rest(toks: Seq<Token>, j: int, acc: Expr) -> Option<(Expr, int)>
    decreases toks.len() - j,
{
    if j < 0 || j >= toks.len() {
        None
    } else {
        match additive_op(toks[j].kind) {
            None => Some((acc, j)),
            Some(op) => match lone_operand(toks, j + 1) {
                Some(x) => if j + 2 < toks.len() {
                    additive_rest(
                        toks,
                        j + 2,
                        Expr::Binary {
                            op,
                            left: Box::new(acc),
                            right: Box::new(x),
                            span: crate::span::spec_merge(acc.spec_span(), x.spec_span()),
                        },
                    )
                } else {
                    None
                },
                None => None,
            },
        }
    }
}

/// A chain `a op b op c ...` of lone literals joined by `+` and `-` from
/// position `i`: the expression it reads as and the position after it.
pub open spec fn additive_chain(toks: Seq<Token>, i: int) -> Option<(Expr, int)> {
    match lone_operand(toks, i) {
        Some(x) => additive_rest(toks, i + 1, x),
        None => None,
    }
}

/// The multiplicative operator that a token stands for.
pub open spec fn multiplicative_op(k: TokenKind) -> Option<BinOp> {
    match k {
        TokenKind::Star => Some(BinOp::Mul),
        TokenKind::Slash => Some(BinOp::Div),
        TokenKind::Percent => Some(BinOp::Rem),
        _ => None,
    }
}

/// Reads `*`, `/`, `%` and literal operands from `j` on, `acc` being what
/// was read before: each operator takes all that was read before it as its
/// left operand. The expression and the position where the chain ends.
pub open spec fn multiplicative_rest(toks: Seq<Token>, j: int, acc: Expr) -> Option<(Expr, int)>
    decreases toks.len() - j,
{
    if j < 0 || j >= toks.len() {
        None
    } else {
        match multiplicative_op(toks[j].kind) {
            None => Some((acc, j)),
            Some(op) => if j + 2 < toks.len() {
                match literal_of(toks[j + 1].kind, toks[j + 1].span) {
                    Some(x) => multiplicative_rest(toks, j + 2, binary_of(op, acc, x)),
                    None => None,
                }
            } else {
                None
            },
        }
    }
}

/// A chain `a op b op c ...` of literals joined by `*`, `/` and `%` from
/// position `i`: the expression it reads as and the position after it.
pub open spec fn multiplicative_chain(toks: Seq<Token>, i: int) -> Option<(Expr, int)> {
    if 0 <= i && i + 1 < toks.len() {
        match literal_of(toks[i].kind, toks[i].span) {
            Some(x) => multiplicative_rest(toks, i + 1, x),
            None => None,
        }
    } else {
        None
    }
}

/// The operands of `*`, `/` and `%` group from the left: `a op1 b op2 c`
/// reads as `(a op1 b) op2 c`.
pub proof fn law_multiplicative_left_nested(toks: Seq<Token>, i: int)
    requires
        0 <= i,
        i + 5 < toks.len(),
        literal_of(toks[i].kind, toks[i].span) is Some,
        multiplicative_op(toks[i + 1].kind) is Some,
        literal_of(toks[i + 2].kind, toks[i + 2].span) is Some,
        multiplicative_op(toks[i + 3].kind) is Some,
        literal_of(toks[i + 4].kind, toks[i + 4].span) is Some,
        multiplicative_op(toks[i + 5].kind) is None,
    ensures
        multiplicative_chain(toks, i) == Some((
            binary_of(
                multiplicative_op(toks[i + 3].kind)->0,
                binary_of(
                    multiplicative_op(toks[i + 1].kind)->0,
                    literal_of(toks[i].kind, toks[i].span)->0,
                    literal_of(toks[i + 2].kind, toks[i + 2].span)->0,
                ),
                literal_of(toks[i + 4].kind, toks[i + 4].span)->0,
            ),
            i + 5,
        )),
{
    reveal_with_fuel(multiplicative_rest, 4);
}

/// Reads `+` / `-` from `j` on, each followed by a chain of `*`, `/`, `%`
/// over literals (see `multiplicative_chain`), `acc` being what was read
/// before: each `+` / `-` takes all that was read before it as its left
/// operand and the whole multiplicative chain after it as its right one.
pub open spec fn sum_rest(toks: Seq<Token>, j: int, acc: Expr) -> Option<(Expr, int)>
    decreases toks.len() - j,
{
    if j < 0 || j >= toks.len() {
        None
    } else {
        match additive_op(toks[j].kind) {
            None => Some((acc, j)),
            Some(op) => match multiplicative_chain(toks, j + 1) {
                Some((x, e)) => if j < e <= toks.len() {
                    sum_rest(toks, e, binary_of(op, acc, x))
                } else {
                    None
                },
                None => None,
            },
        }
    }
}

/// An expression of literals joined by `+`, `-`, `*`, `/` and `%` from `i`:
/// `*`, `/`, `%` bind tighter than `+`, `-`, and each level groups from the
/// left. The expression and the position after it.
pub open spec fn sum_chain(toks: Seq<Token>, i: int) -> Option<(Expr, int)> {
    match multiplicative_chain(toks, i) {
        Some((x, e)) => sum_rest(toks, e, x),
        None => None,
    }
}

/// `*` binds tighter than `+` on either side: `a + b * c` reads as
/// `a + (b * c)` and `a * b + c` as `(a * b) + c`.
pub proof fn law_sum_precedence(toks: Seq<Token>, i: int)
    requires
        0 <= i,
        i + 5 < toks.len(),
        literal_of(toks[i].kind, toks[i].span) is Some,
        literal_of(toks[i + 2].kind, toks[i + 2].span) is Some,
        literal_of(toks[i + 4].kind, toks[i + 4].span) is Some,
        multiplicative_op(toks[i + 5].kind) is None,
        additive_op(toks[i + 5].kind) is None,
    ensures
        additive_op(toks[i + 1].kind) is Some && multiplicative_op(toks[i + 3].kind) is Some ==> sum_chain(toks, i) == Some((
            binary_of(
                additive_op(toks[i + 1].kind)->0,
                literal_of(toks[i].kind, toks[i].span)->0,
                binary_of(
                    multiplicative_op(toks[i + 3].kind)->0,
                    literal_of(toks[i + 2].kind, toks[i + 2].span)->0,
                    literal_of(toks[i + 4].kind, toks[i + 4].span)->0,
                ),
            ),
            i + 5,
        )),
        multiplicative_op(toks[i + 1].kind) is Some && additive_op(toks[i + 3].kind) is Some ==> sum_chain(toks, i) == Some((
            binary_of(
                additive_op(toks[i + 3].kind)->0,
                binary_of(
                    multiplicative_op(toks[i + 1].kind)->0,
                    literal_of(toks[i].kind, toks[i].span)->0,
                    literal_of(toks[i + 2].kind, toks[i + 2].span)->0,
                ),
                literal_of(toks[i + 4].kind, toks[i + 4].span)->0,
            ),
            i + 5,
        )),
{
    reveal_with_fuel(multiplicative_rest, 3);
    reveal_with_fuel(sum_rest, 3);
}

/// `l op r` with the span that covers both.
pub open spec fn binary_of(op: BinOp, l: Expr, r: Expr) -> Expr {
    Expr::Binary { op, left: Box::new(l), right: Box::new(r), span: crate::span::spec_merge(l.spec_span(), r.spec_span()) }
}

/// The operands of `+` and `-` group from the left: `a op1 b op2 c` reads
/// as `(a op1 b) op2 c`.
pub proof fn law_additive_left_nested(toks: Seq<Token>, i: int)
    requires
        0 <= i,
        i + 5 < toks.len(),
        lone_operand(toks, i) is Some,
        additive_op(toks[i + 1].kind) is Some,
        lone_operand(toks, i + 2) is Some,
        additive_op(toks[i + 3].kind) is Some,
        lone_operand(toks, i + 4) is Some,
        additive_op(toks[i + 5].kind) is None,
    ensures
        additive_chain(toks, i) == Some((
            binary_of(
                additive_op(toks[i + 3].kind)->0,
                binary_of(additive_op(toks[i + 1].kind)->0, lone_operand(toks, i)->0, lone_operand(toks, i + 2)->0),
                lone_operand(toks, i + 4)->0,
            ),
            i + 5,
        )),
{
    reveal_with_fuel(additive_rest, 4);
}

/// The right operand of a binary expression is not itself a binary one.
pub open spec fn right_not_binary(e: Expr) -> bool {
    match e {
        Expr::Binary { right, .. } => !(*right is Binary),
        _ => true,
    }
}

/// The chain read is a binary expression whose right operand is not a
/// binary one.
pub open spec fn read_right_simple(o: Option<(Expr, int)>, need_binary: bool) -> bool {
    match o {
        Some((e, _)) => right_not_binary(e) && (need_binary ==> e is Binary),
        None => false,
    }
}

/// The right operand of `+` or `-` in a chain is one operand, never a chain
/// of its own.
pub proof fn law_additive_right_operand(toks: Seq<Token>, i: int)
    requires
        additive_chain(toks, i) is Some,
    ensures
        read_right_simple(additive_chain(toks, i), false),
{
    let x = lone_operand(toks, i)->0;
    lemma_additive_rest_right(toks, i + 1, x, false);
}

/// From an `acc` that is not a binary expression, or is one whose right
/// operand is not, what `additive_rest` builds keeps that shape.
proof fn lemma_additive_rest_right(toks: Seq<Token>, j: int, acc: Expr, is_bin: bool)
    requires
        additive_rest(toks, j, acc) is Some,
        right_not_binary(acc),
        is_bin ==> acc is Binary,
    ensures
        read_right_simple(additive_rest(toks, j, acc), is_bin),
    decreases toks.len() - j,
{
    if 0 <= j < toks.len() {
        if let Some(op) = additive_op(toks[j].kind) {
            let x = lone_operand(toks, j + 1)->0;
            lemma_additive_rest_right(toks, j + 2, binary_of(op, acc, x), true);
        }
    }
}

impl Parser {
    spec fn inv(&self) -> bool {
        &&& self.tokens@.len() >= 1
        &&& self.pos < self.tokens@.len()
        &&& self.tokens@.last().kind is Eof
    }

    spec fn moved_from(&self, old: &Parser) -> bool {
        &&& self.inv()
        &&& self.tokens@ == old.tokens@
        &&& self.pos >= old.pos
        &&& self.diags.file() == old.diags.file()
        &&& keeps(old.diags.all(), self.diags.all())
    }

    /// At least one diagnostic was added since `old`.
    spec fn reported_since(&self, old: &Parser) -> bool {
        self.diags.all().len() > old.diags.all().len()
    }

    /// Exactly one diagnostic was added since `old`: the report that `what` was
    /// wanted by `context` where `old`'s current token stands.
    spec fn unexpected_reported(&self, old: &Parser, context: Seq<char>, what: Seq<char>) -> bool {
        &&& self.diags.all().len() == old.diags.all().len() + 1
        &&& self.diags.all().drop_last() == old.diags.all()
        &&& self.diags.all().last().code == codes::PARSE_UNEXPECTED
        &&& self.diags.all().last().file == old.diags.file()
        &&& self.diags.all().last().span == old.tokens@[old.pos as int].span
        &&& self.diags.all().last().message@ == unexpected_message(context, what, old.cur())
        &&& self.diags.all().last().hint is None
    }

    /// The literal at the current token, where no binary operator follows it.
    spec fn lone_literal(&self) -> Option<Expr> {
        if self.pos + 1 < self.tokens@.len() && !binop_kind(self.tokens@[self.pos + 1].kind) {
            literal_of(self.cur(), self.tokens@[self.pos as int].span)
        } else {
            None
        }
    }

    spec fn cur(&self) -> TokenKind {
        self.tokens@[self.pos as int].kind
    }

    spec fn remaining(&self) -> int {
        self.tokens@.len() - self.pos
    }

    /// The kind of the token after the current one.
    spec fn next_kind(&self) -> TokenKind {
        self.tokens@[self.pos + 1].kind
    }

    // ---- basic operations ----
    fn peek(&self) -> (k: &TokenKind)
        requires
            self.inv(),
        ensures
            *k == self.cur(),
    {
        &self.tokens[self.pos].kind
    }

    fn peek_at(&self, n: usize) -> (k: &TokenKind)
        requires
            self.inv(),
        ensures
            n < self.tokens@.len() - self.pos ==> *k == self.tokens@[self.pos + n].kind,
            n >= self.tokens@.len() - self.pos ==> *k == self.tokens@.last().kind,
    {
        let i = if n < self.tokens.len() - self.pos {
            self.pos + n
        } else {
            self.tokens.len() - 1
        };
        &self.tokens[i].kind
    }

    fn peek_span(&self) -> (s: Span)
        requires
            self.inv(),
        ensures
            s == self.tokens@[self.pos as int].span,
    {
        self.tokens[self.pos].span
    }

    /// Moves to the next token; stays on the final token.
    fn advance(&mut self)
        requires
            old(self).inv(),
        ensures
            final(self).moved_from(old(self)),
            !(old(self).cur() is Eof) ==> final(self).pos == old(self).pos + 1,
            final(self).pos <= old(self).pos + 1,
            final(self).diags == old(self).diags,
    {
        if self.pos < self.tokens.len() - 1 {
            self.pos = self.pos + 1;
        }
    }

    fn check(&self, kind: &TokenKind) -> (b: bool)
        requires
            self.inv(),
        ensures
            b == (spec_tag(self.cur()) == spec_tag(*kind)),
    {
        self.tokens[self.pos].kind.tag() == kind.tag()
    }

    fn eat(&mut self, kind: &TokenKind) -> (b: bool)
        requires
            old(self).inv(),
            !(*kind is Eof),
        ensures
            final(self).moved_from(old(self)),
            b == (spec_tag(old(self).cur()) == spec_tag(*kind)),
            b ==> final(self).pos == old(self).pos + 1,
            !b ==> final(self).pos == old(self).pos,
            final(self).diags == old(self).diags,
    {
        if self.check(kind) {
            self.advance();
            true
        } else {
            false
        }
    }

    fn unexpected(&mut self, context: &str, what: &str)
        requires
            old(self).inv(),
        ensures
            final(self).moved_from(old(self)),
            final(self).pos == old(self).pos,
            final(self).unexpected_reported(old(self), context@, what@),
    {
        let found = self.peek().describe();
        let sp = self.peek_span();
        self.diags.emit(
            codes::PARSE_UNEXPECTED,
            sp,
            cat6(context, "には", what, "が必要ですが、", found.as_str(), "が見つかりました"),
        );
        proof {
            assert(self.diags.all().drop_last() =~= old(self).diags.all());
        }
    }

    fn expect(&mut self, kind: &TokenKind, context: &str) -> (b: bool)
        requires
            old(self).inv(),
            !(*kind is Eof),
        ensures
            final(self).moved_from(old(self)),
            b == (spec_tag(old(self).cur()) == spec_tag(*kind)),
            b ==> final(self).pos == old(self).pos + 1 && final(self).diags.all() == old(self).diags.all(),
            !b ==> final(self).pos == old(self).pos
                && final(self).unexpected_reported(old(self), context@, crate::token::kind_text(*kind)),
    {
        if self.eat(kind) {
            true
        } else {
            let want = kind.describe();
            self.unexpected(context, want.as_str());
            false
        }
    }

    fn expect_lower(&mut self, context: &str) -> (r: Option<(String, Span)>)
        requires
            old(self).inv(),
        ensures
            final(self).moved_from(old(self)),
            r is Some <==> old(self).cur() is LowerIdent,
            r matches Some((n, sp)) ==> old(self).cur() == TokenKind::LowerIdent(n)
                && sp == old(self).tokens@[old(self).pos as int].span
                && final(self).pos == old(self).pos + 1
                && final(self).diags.all() == old(self).diags.all(),
            r is None ==> final(self).pos == old(self).pos
                && final(self).unexpected_reported(old(self), context@, "小文字で始まる名前"@),
    {
        if let TokenKind::LowerIdent(name) = self.peek() {
            let name = name.clone();
            let sp = self.peek_span();
            self.advance();
            Some((name, sp))
        } else {
            self.unexpected(context, "小文字で始まる名前");
            None
        }
    }

    fn expect_upper(&mut self, context: &str) -> (r: Option<(String, Span)>)
        requires
            old(self).inv(),
        ensures
            final(self).moved_from(old(self)),
            r is Some <==> old(self).cur() is UpperIdent,
            r matches Some((n, sp)) ==> old(self).cur() == TokenKind::UpperIdent(n)
                && sp == old(self).tokens@[old(self).pos as int].span
                && final(self).pos == old(self).pos + 1
                && final(self).diags.all() == old(self).diags.all(),
            r is None ==> final(self).pos == old(self).pos
                && final(self).unexpected_reported(old(self), context@, "大文字で始まる名前"@),
    {
        if let TokenKind::UpperIdent(name) = self.peek() {
            let name = name.clone();
            let sp = self.peek_span();
            self.advance();
            Some((name, sp))
        } else {
            self.unexpected(context, "大文字で始まる名前");
            None
        }
    }

    fn skip_newlines(&mut self)
        requires
            old(self).inv(),
        ensures
            final(self).moved_from(old(self)),
            final(self).diags.all() == old(self).diags.all(),
            !(final(self).cur() is Newline),
            forall|i: int| old(self).pos <= i < final(self).pos ==> #[trigger] final(self).tokens@[i].kind is Newline,
    {
        while self.check(&TokenKind::Newline)
            invariant
                self.moved_from(old(self)),
                self.diags.all() == old(self).diags.all(),
                forall|i: int| old(self).pos <= i < self.pos ==> #[trigger] self.tokens@[i].kind is Newline,
            decreases self.remaining(),
        {
            self.advance();
        }
    }

    /// Error recovery: skips to the next top-level declaration, keeping
    /// indentation balanced.
    fn sync_to_decl(&mut self)
        requires
            old(self).inv(),
        ensures
            final(self).moved_from(old(self)),
            final(self).diags.all() == old(self).diags.all(),
            final(self).cur() is Eof || starts_decl_kind(final(self).cur()),
    {
        let mut depth: i64 = 0;
        let mut stop = false;
        while !stop
            invariant
                self.moved_from(old(self)),
                self.diags.all() == old(self).diags.all(),
                stop ==> (self.cur() is Eof || starts_decl_kind(self.cur())),
            decreases self.remaining(), (if stop {
                0int
            } else {
                1int
            }),
        {
            let t = self.peek().tag();
            if self.check(&TokenKind::Eof) {
                stop = true;
            } else if self.check(&TokenKind::Indent) {
                if depth < i64::MAX {
                    depth = depth + 1;
                }
                self.advance();
            } else if self.check(&TokenKind::Dedent) {
                if depth > i64::MIN {
                    depth = depth - 1;
                }
                self.advance();
            } else if (self.check(&TokenKind::KwT) || self.check(&TokenKind::KwC) || self.check(
                &TokenKind::KwR,
            ) || self.check(&TokenKind::KwF) || self.check(&TokenKind::KwImport)) && depth <= 0 {
                stop = true;
            } else {
                self.advance();
            }
        }
    }

    // ---- program ----
    #[verifier::loop_isolation(false)]
    fn parse_program(&mut self) -> (p: Program)
        requires
            old(self).inv(),
        ensures
            final(self).moved_from(old(self)),
            first_simple_decl(old(self).tokens@, old(self).pos as int) matches Some(d) ==> p.decls@.len() >= 1
                && p.decls@[0] == d,
            first_record_decl(old(self).tokens@, old(self).pos as int) matches Some((n, fs)) ==> p.decls@.len() >= 1
                && is_record_decl(p.decls@[0], n, fs),
            final(self).cur() is Eof,
            blank_from(old(self).tokens@, old(self).pos as int) ==> p.imports@.len() == 0 && p.decls@.len() == 0
                && final(self).diags.all() == old(self).diags.all(),
    {
        let mut imports: Vec<ImportDecl> = Vec::new();
        let mut decls: Vec<Decl> = Vec::new();
        let mut stop = false;
        while !stop
            invariant
                self.moved_from(old(self)),
                stop ==> self.cur() is Eof,
                blank_from(old(self).tokens@, old(self).pos as int) ==> imports@.len() == 0 && decls@.len() == 0
                    && self.diags.all() == old(self).diags.all() && self.pos >= old(self).pos,
                first_simple_decl(old(self).tokens@, old(self).pos as int) matches Some(d) ==> ((decls@.len() == 0
                    && self.pos == old(self).pos && !stop) || (decls@.len() >= 1 && decls@[0] == d)),
                first_record_decl(old(self).tokens@, old(self).pos as int) matches Some((n, fs)) ==> ((decls@.len() == 0
                    && self.pos == old(self).pos && !stop) || (decls@.len() >= 1 && is_record_decl(decls@[0], n, fs))),
            decreases self.remaining(), (if stop {
                0int
            } else {
                1int
            }),
        {
            let ghost p0 = self.pos;
            let ghost n0 = decls@.len();
            self.skip_newlines();
            proof {
                if first_simple_decl(old(self).tokens@, old(self).pos as int) is Some && n0 == 0 {
                    lemma_first_decl_skip(self.tokens@, p0 as int, self.pos as int);
                }
                if first_record_decl(old(self).tokens@, old(self).pos as int) is Some && n0 == 0 {
                    lemma_first_record_skip(self.tokens@, p0 as int, self.pos as int);
                }
            }
            let before = self.pos;
            if self.check(&TokenKind::Eof) {
                stop = true;
            } else {
                if self.check(&TokenKind::KwImport) {
                    let sp = self.peek_span();
                    if decls.len() > 0 {
                        self.diags.emit(
                            codes::PARSE_IMPORT_POSITION,
                            sp,
                            String::from_str("import はすべての T/C/R/F 宣言より前に置く必要があります"),
                        );
                    }
                    match self.parse_import() {
                        Some(im) => imports.push(im),
                        None => self.sync_to_decl(),
                    }
                } else if self.check(&TokenKind::KwT) {
                    match self.parse_type_decl() {
                        Some(d) => decls.push(Decl::Type(d)),
                        None => self.sync_to_decl(),
                    }
                } else if self.check(&TokenKind::KwC) {
                    match self.parse_const_decl() {
                        Some(d) => decls.push(Decl::Const(d)),
                        None => self.sync_to_decl(),
                    }
                } else if self.check(&TokenKind::KwR) {
                    match self.parse_rule_decl() {
                        Some(d) => decls.push(Decl::Rule(d)),
                        None => self.sync_to_decl(),
                    }
                } else if self.check(&TokenKind::KwF) {
                    match self.parse_flow_decl() {
                        Some(d) => decls.push(Decl::Flow(d)),
                        None => self.sync_to_decl(),
                    }
                } else {
                    let found = self.peek().describe();
                    let sp = self.peek_span();
                    self.diags.emit(
                        codes::PARSE_UNEXPECTED,
                        sp,
                        cat3(
                            "トップレベルには import / T / C / R / F だけを書けますが、",
                            found.as_str(),
                            "が見つかりました",
                        ),
                    );
                    self.sync_to_decl();
                }
                if self.pos == before {
                    // every branch above consumes a token; keep the loop finite regardless
                    if self.check(&TokenKind::Eof) {
                        stop = true;
                    } else {
                        self.advance();
                    }
                }
            }
        }
        Program { imports, decls }
    }

    // ---- import ----
    #[verifier::loop_isolation(false)]
    fn parse_import(&mut self) -> (r: Option<ImportDecl>)
        requires
            old(self).inv(),
        ensures
            final(self).moved_from(old(self)),
            r is None ==> final(self).reported_since(old(self)),
            r is Some ==> final(self).pos > old(self).pos,
            r matches Some(im) ==> im.path@.len() >= 1 && (!(old(self).cur() is Eof) ==> old(self).tokens@[old(self).pos + 1].kind == TokenKind::LowerIdent(im.path@[0])),
    {
        let start = self.peek_span();
        self.advance();
        let mut path: Vec<String> = Vec::new();
        let (seg, _) = self.expect_lower("モジュール名")?;
        let ghost first = seg;
        path.push(seg);
        while self.eat(&TokenKind::Dot)
            invariant
                self.moved_from(old(self)),
                self.pos > old(self).pos,
                path@.len() >= 1,
                path@[0] == first,
            decreases self.remaining(),
        {
            let (seg, _) = self.expect_lower("モジュール名")?;
            path.push(seg);
        }
        let alias = if self.eat(&TokenKind::KwAs) {
            let (a, _) = self.expect_lower("import 別名")?;
            Some(a)
        } else {
            None
        };
        let end = self.peek_span();
        self.expect(&TokenKind::Newline, "import 宣言の後");
        Some(ImportDecl { path, alias, span: start.merge(end) })
    }

    // ---- type declarations ----
    #[verifier::loop_isolation(false)]
    fn parse_type_decl(&mut self) -> (r: Option<TypeDecl>)
        requires
            old(self).inv(),
        ensures
            final(self).moved_from(old(self)),
            usage_decl_at(old(self).tokens@, old(self).pos as int) matches Some(td) ==> r == Some(td)
                && final(self).diags.all() == old(self).diags.all() && final(self).pos == old(self).pos + 6,
            record_decl_at(old(self).tokens@, old(self).pos as int) matches Some(fs) ==> is_record_with(r, fs),
            r is None ==> final(self).reported_since(old(self)),
            r is Some ==> final(self).pos > old(self).pos,
            r matches Some(d) ==> !(old(self).cur() is Eof) ==> {
                &&& old(self).tokens@[old(self).pos + 1].kind == TokenKind::UpperIdent(d.name)
                &&& d.name_span == old(self).tokens@[old(self).pos + 1].span
                &&& (old(self).tokens@[old(self).pos + 2].kind is LBracket ==> d.kind is Usage)
                &&& (old(self).tokens@[old(self).pos + 2].kind is LBrace ==> d.kind is Record)
                &&& (old(self).tokens@[old(self).pos + 2].kind is Newline ==> d.kind is Adt)
            },
    {
        let ghost o = *old(self);
        self.advance();
        let (name, name_span) = self.expect_upper("型名")?;
        if self.check(&TokenKind::LBracket) {
            self.advance();
            let inner = self.parse_type_expr()?;
            self.expect(&TokenKind::RBracket, "用途型の内部型の後");
            self.expect(&TokenKind::Newline, "用途型宣言の後");
            proof {
                if let Some(td) = usage_decl_at(o.tokens@, o.pos as int) {
                    assert(o.tokens@[o.pos + 1].kind == TokenKind::UpperIdent(name));
                    assert(td.name == name);
                    assert(td.kind == TypeDeclKind::Usage(inner));
                    assert(td.name_span == name_span);
                    assert(self.diags.all() == o.diags.all());
                    assert(self.pos == o.pos + 6);
                }
            }
            Some(TypeDecl { name, name_span, kind: TypeDeclKind::Usage(inner) })
        } else if self.check(&TokenKind::LBrace) {
            assert(usage_decl_at(o.tokens@, o.pos as int) is None);
            self.advance();
            let ghost want = record_fields_at(o.tokens@, o.pos + 3);
            let mut fields: Vec<FieldDecl> = Vec::new();
            let mut stop = false;
            while !stop
                invariant
                    self.moved_from(old(self)),
                    self.pos > old(self).pos,
                    o == *old(self),
                    want == record_fields_at(o.tokens@, o.pos + 3),
                    !stop && fields@.len() == 0 ==> self.pos == o.pos + 3,
                    want matches Some((fs, e)) ==> (!stop ==> fields_progress(self.tokens@, self.pos as int, fields@, fs, e)),
                    want matches Some((fs, e)) ==> (stop ==> fields@ == fs && self.pos == e + 1),
                decreases self.remaining(), (if stop {
                    0int
                } else {
                    1int
                }),
            {
                let ghost p0 = self.pos;
                self.skip_newlines();
                proof {
                    lemma_record_fields_skip(self.tokens@, p0 as int, self.pos as int);
                }
                if self.eat(&TokenKind::RBrace) {
                    stop = true;
                } else if self.check(&TokenKind::Eof) {
                    self.expect(&TokenKind::RBrace, "レコード型宣言");
                    return None;
                } else {
                    let ghost p1 = self.pos;
                    let ghost done = fields@;
                    let (fname, fspan) = self.expect_lower("フィールド名")?;
                    let ty = self.parse_type_expr()?;
                    fields.push(FieldDecl { name: fname, name_span: fspan, ty });
                    if !self.check(&TokenKind::RBrace) {
                        self.expect(&TokenKind::Newline, "フィールド宣言の後");
                    }
                    proof {
                        if want is Some {
                            let (fs, e) = want->0;
                            let toks = self.tokens@;
                            assert(fields_progress(toks, p1 as int, done, fs, e));
                            let (here, _) = record_fields_at(toks, p1 as int)->0;
                            assert(toks[p1 + 2].kind is Newline || toks[p1 + 2].kind is RBrace);
                            assert(record_fields_at(toks, self.pos as int) is Some);
                            let (rest, _) = record_fields_at(toks, self.pos as int)->0;
                            assert(here =~= seq![fields@.last()] + rest);
                            assert(fields@ =~= done.push(fields@.last()));
                            assert(done + here =~= fields@ + rest);
                        }
                    }
                }
            }
            self.expect(&TokenKind::Newline, "レコード型宣言の後");
            Some(TypeDecl { name, name_span, kind: TypeDeclKind::Record(fields) })
        } else if self.check(&TokenKind::Newline) {
            assert(usage_decl_at(o.tokens@, o.pos as int) is None);
            self.advance();
            self.expect(&TokenKind::Indent, "代数データ型のコンストラクタ行の前");
            let mut ctors: Vec<CtorDecl> = Vec::new();
            while !self.check(&TokenKind::Dedent) && !self.check(&TokenKind::Eof)
                invariant
                    self.moved_from(old(self)),
                    self.pos > old(self).pos,
                decreases self.remaining(),
            {
                if !self.expect(&TokenKind::Pipe, "コンストラクタ行の先頭") {
                    self.sync_to_decl();
                    return None;
                }
                let (cname, cspan) = self.expect_upper("コンストラクタ名")?;
                let payload = if self.check(&TokenKind::Newline) {
                    None
                } else {
                    let first = self.parse_type_expr()?;
                    if !self.check(&TokenKind::Newline) {
                        let sp = self.peek_span();
                        self.diags.emit_with_hint(
                            codes::PARSE_ADT_MULTI_PAYLOAD,
                            sp,
                            cat3("コンストラクタ `", cname.as_str(), "` に複数のペイロードは持てません"),
                            String::from_str("複数の値が必要な場合はレコード型にまとめてください"),
                        );
                        let ghost p1 = self.pos;
                        while !self.check(&TokenKind::Newline) && !self.check(&TokenKind::Eof)
                            invariant
                                self.moved_from(old(self)),
                                self.pos > old(self).pos,
                                self.pos >= p1,
                            decreases self.remaining(),
                        {
                            self.advance();
                        }
                    }
                    Some(first)
                };
                self.expect(&TokenKind::Newline, "コンストラクタ宣言の後");
                ctors.push(CtorDecl { name: cname, name_span: cspan, payload });
            }
            self.eat(&TokenKind::Dedent);
            Some(TypeDecl { name, name_span, kind: TypeDeclKind::Adt(ctors) })
        } else {
            self.unexpected("型宣言", "`[内部型]`・`{ フィールド }`・コンストラクタ行のいずれか");
            None
        }
    }

    // ---- type expressions ----
    #[verifier::loop_isolation(false)]
    fn parse_type_expr(&mut self) -> (r: Option<TypeExpr>)
        requires
            old(self).inv(),
        ensures
            final(self).moved_from(old(self)),
            old(self).cur() is KwList && r is Some ==> r->0 is List,
            old(self).cur() is LowerIdent && r is Some ==> r->0 matches TypeExpr::Named { qualifier: Some(_), .. },
            r is None ==> final(self).reported_since(old(self)),
            r is Some ==> final(self).pos > old(self).pos,
            old(self).cur() is KwVoid ==> r == Some(TypeExpr::Void { span: old(self).tokens@[old(self).pos as int].span })
                && final(self).pos == old(self).pos + 1 && final(self).diags.all() == old(self).diags.all(),
            old(self).cur() matches TokenKind::UpperIdent(n) ==> r == Some(TypeExpr::Named {
                qualifier: None,
                name: n,
                span: old(self).tokens@[old(self).pos as int].span,
            }) && final(self).pos == old(self).pos + 1 && final(self).diags.all() == old(self).diags.all(),
        decreases old(self).remaining(),
    {
        let start = self.peek_span();
        if self.check(&TokenKind::KwVoid) {
            self.advance();
            Some(TypeExpr::Void { span: start })
        } else if self.check(&TokenKind::KwList) {
            self.advance();
            self.expect(&TokenKind::Lt, "`List` の後");
            let elem = self.parse_type_expr()?;
            let end = self.peek_span();
            self.expect(&TokenKind::Gt, "List 要素型の後");
            Some(TypeExpr::List { elem: Box::new(elem), span: start.merge(end) })
        } else if let TokenKind::UpperIdent(name) = self.peek() {
            let name = name.clone();
            self.advance();
            Some(TypeExpr::Named { qualifier: None, name, span: start })
        } else if let TokenKind::LowerIdent(first) = self.peek() {
            // qualified type name: std.RangeInput / std.range.RangeInput
            let mut qual = first.clone();
            self.advance();
            loop
                invariant
                    self.moved_from(old(self)),
                decreases self.remaining(),
            {
                if !self.expect(&TokenKind::Dot, "修飾型名") {
                    return None;
                }
                if let TokenKind::LowerIdent(seg) = self.peek() {
                    let seg = seg.clone();
                    self.advance();
                    qual = cat3(qual.as_str(), ".", seg.as_str());
                } else if let TokenKind::UpperIdent(name) = self.peek() {
                    let name = name.clone();
                    let end = self.peek_span();
                    self.advance();
                    return Some(
                        TypeExpr::Named { qualifier: Some(qual), name, span: start.merge(end) },
                    );
                } else {
                    self.unexpected("修飾型名", "識別子");
                    return None;
                }
            }
        } else {
            let found = self.peek().describe();
            let sp = self.peek_span();
            self.diags.emit(
                codes::PARSE_UNEXPECTED,
                sp,
                cat3("型が必要ですが、", found.as_str(), "が見つかりました"),
            );
            None
        }
    }

    /// Tries to read a type expression without leaving diagnostics (to tell
    /// `std.empty<T>` from a comparison). On failure the position is restored.
    fn try_parse_type_expr_quiet(&mut self) -> (r: Option<TypeExpr>)
        requires
            old(self).inv(),
        ensures
            final(self).moved_from(old(self)),
            r is Some ==> final(self).pos > old(self).pos,
            final(self).diags.all() == old(self).diags.all(),
            r is None ==> final(self).pos == old(self).pos,
    {
        let saved_pos = self.pos;
        let saved_len = self.diags.len();
        let result = self.parse_type_expr();
        if result.is_none() {
            self.pos = saved_pos;
        }
        self.diags.truncate(saved_len);
        result
    }

    // ---- constants ----
    fn parse_const_decl(&mut self) -> (r: Option<ConstDecl>)
        requires
            old(self).inv(),
        ensures
            final(self).moved_from(old(self)),
            r is None ==> final(self).reported_since(old(self)),
            r is Some ==> final(self).pos > old(self).pos,
            r matches Some(c) ==> !(old(self).cur() is Eof) ==> old(self).tokens@[old(self).pos + 1].kind == TokenKind::LowerIdent(c.name) && c.name_span == old(self).tokens@[old(self).pos + 1].span,
            const_decl_at(old(self).tokens@, old(self).pos as int) matches Some(cd) ==> r == Some(cd),
    {
        self.advance();
        let (name, name_span) = self.expect_lower("定数名")?;
        self.expect(&TokenKind::Eq, "定数名の後");
        let value = self.parse_expr()?;
        self.expect(&TokenKind::Newline, "定数宣言の後");
        Some(ConstDecl { name, name_span, value })
    }

    // ---- rules ----
    #[verifier::loop_isolation(false)]
    fn parse_rule_decl(&mut self) -> (r: Option<RuleDecl>)
        requires
            old(self).inv(),
        ensures
            final(self).moved_from(old(self)),
            r is None ==> final(self).reported_since(old(self)),
            r is Some ==> final(self).pos > old(self).pos,
            r matches Some(d) ==> !(old(self).cur() is Eof) ==> old(self).tokens@[old(self).pos + 1].kind == TokenKind::LowerIdent(d.name) && d.name_span == old(self).tokens@[old(self).pos + 1].span,
    {
        self.advance();
        let (name, name_span) = self.expect_lower("R 名")?;
        let mut params: Vec<(String, Span)> = Vec::new();
        loop
            invariant
                self.moved_from(old(self)),
            decreases self.remaining(),
        {
            if let TokenKind::LowerIdent(p) = self.peek() {
                let p = p.clone();
                let sp = self.peek_span();
                self.advance();
                params.push((p, sp));
            } else {
                break ;
            }
        }
        self.expect(&TokenKind::Newline, "R ヘッダの後");
        self.expect(&TokenKind::Indent, "R 本体の前");
        let input = self.parse_type_expr()?;
        if self.check(&TokenKind::Arrow) {
            self.advance();
            let output = self.parse_type_expr()?;
            self.expect(&TokenKind::Newline, "表現保持型遷移の後");
            self.expect(&TokenKind::Dedent, "表現保持型遷移 R の末尾");
            if params.len() > 1 {
                self.diags.emit(
                    codes::PARSE_UNEXPECTED,
                    params[1].1,
                    String::from_str("R のパラメータは1個までです"),
                );
            }
            Some(RuleDecl { name, name_span, params, kind: RuleKind::Transition { input, output } })
        } else if self.check(&TokenKind::Comma) || self.check(&TokenKind::Gt) {
            let mut inputs: Vec<TypeExpr> = Vec::new();
            inputs.push(input);
            while self.eat(&TokenKind::Comma)
                invariant
                    self.moved_from(old(self)),
                    inputs@.len() >= 1,
                decreases self.remaining(),
            {
                let t = self.parse_type_expr()?;
                inputs.push(t);
            }
            self.expect(&TokenKind::Gt, "R シグネチャの入力型の後");
            let output = self.parse_type_expr()?;
            let can_fail = if self.eat(&TokenKind::Bang) {
                self.expect(&TokenKind::KwError, "`!` の後");
                true
            } else {
                false
            };
            self.expect(&TokenKind::Newline, "R シグネチャの後");
            // the rule ends right after its signature: a declaration without a body
            if self.check(&TokenKind::Dedent) {
                self.advance();
                return Some(
                    RuleDecl {
                        name,
                        name_span,
                        params,
                        kind: RuleKind::External { inputs, output, can_fail },
                    },
                );
            }
            if inputs.len() > 1 {
                let sp = inputs[1].span();
                self.diags.emit(
                    codes::PARSE_UNEXPECTED,
                    sp,
                    String::from_str(
                        "本体を持つ R の入力型は1個です (カンマ区切りは宣言のみ R 専用)",
                    ),
                );
            }
            if params.len() > 1 {
                self.diags.emit(
                    codes::PARSE_UNEXPECTED,
                    params[1].1,
                    String::from_str("本体を持つ R のパラメータは1個までです"),
                );
            }
            let body = self.parse_block()?;
            self.expect(&TokenKind::Dedent, "R 本体の末尾");
            let input = inputs.remove(0);
            Some(
                RuleDecl {
                    name,
                    name_span,
                    params,
                    kind: RuleKind::Normal { input, output, can_fail, body },
                },
            )
        } else {
            self.unexpected("R シグネチャ", "`>` または `=>`");
            None
        }
    }

    /// Bindings and a final expression; the caller handles the closing DEDENT.
    #[verifier::loop_isolation(false)]
    fn parse_block(&mut self) -> (r: Option<Block>)
        requires
            old(self).inv(),
        ensures
            final(self).moved_from(old(self)),
            !binding_start(old(self).tokens@, old(self).pos as int) ==> (r matches Some(b) ==> b.bindings@.len() == 0),
            r is None ==> final(self).reported_since(old(self)),
            r is Some ==> final(self).pos > old(self).pos,
        decreases old(self).remaining(), 30nat,
    {
        let mut bindings: Vec<Binding> = Vec::new();
        loop
            invariant
                self.moved_from(old(self)),
                !binding_start(old(self).tokens@, old(self).pos as int) ==> bindings@.len() == 0 && self.pos == old(self).pos,
            decreases self.remaining(),
        {
            // a binding: a lower-case name followed by `:` or `=`
            let is_binding = match self.peek() {
                TokenKind::LowerIdent(_) => match self.peek_at(1) {
                    TokenKind::Colon | TokenKind::Eq => true,
                    _ => false,
                },
                _ => false,
            };
            if !is_binding {
                break ;
            }
            let before = self.pos;
            let b = self.parse_binding()?;
            bindings.push(b);
            if self.pos == before {
                break ;
            }
        }
        let result = self.parse_block_result()?;
        Some(Block { bindings, result })
    }

    fn parse_binding(&mut self) -> (r: Option<Binding>)
        requires
            old(self).inv(),
        ensures
            final(self).moved_from(old(self)),
            r matches Some(b) ==> (b.ty is Some <==> old(self).tokens@[old(self).pos + 1].kind is Colon),
            r is None ==> final(self).reported_since(old(self)),
            r is Some ==> final(self).pos > old(self).pos,
            r matches Some(b) ==> old(self).cur() == TokenKind::LowerIdent(b.name) && b.name_span == old(self).tokens@[old(self).pos as int].span,
        decreases old(self).remaining(), 29nat,
    {
        let (name, name_span) = self.expect_lower("束縛名")?;
        let ty = if self.eat(&TokenKind::Colon) {
            Some(self.parse_type_expr()?)
        } else {
            None
        };
        self.expect(&TokenKind::Eq, "束縛名の後");
        let value = if self.check(&TokenKind::Newline) {
            // the value continues on the next, indented line
            self.advance();
            self.expect(&TokenKind::Indent, "束縛値の前");
            let v = self.parse_block_result()?;
            self.expect(&TokenKind::Dedent, "束縛値の後");
            v
        } else {
            let v = self.parse_expr()?;
            self.expect(&TokenKind::Newline, "束縛値の後");
            v
        };
        Some(Binding { name, name_span, ty, value })
    }

    /// The result expression of a block: `when`, `match` or a one-line expression.
    fn parse_block_result(&mut self) -> (r: Option<Expr>)
        requires
            old(self).inv(),
        ensures
            final(self).moved_from(old(self)),
            r is None ==> final(self).reported_since(old(self)),
            r is Some ==> final(self).pos > old(self).pos,
            old(self).cur() is KwWhen && r is Some ==> r->0 is When,
            old(self).cur() is KwMatch && r is Some ==> r->0 is Match,
        decreases old(self).remaining(), 28nat,
    {
        if self.check(&TokenKind::KwWhen) {
            self.parse_when()
        } else if self.check(&TokenKind::KwMatch) {
            self.parse_match()
        } else {
            let e = self.parse_expr()?;
            self.expect(&TokenKind::Newline, "式の後");
            Some(e)
        }
    }

    fn parse_when(&mut self) -> (r: Option<Expr>)
        requires
            old(self).inv(),
            old(self).cur() is KwWhen,
        ensures
            final(self).moved_from(old(self)),
            r is None ==> final(self).reported_since(old(self)),
            r is Some ==> final(self).pos > old(self).pos,
            r is Some ==> r->0 is When,
        decreases old(self).remaining(), 27nat,
    {
        let start = self.peek_span();
        self.advance();
        let cond = self.parse_expr()?;
        self.expect(&TokenKind::Newline, "when 条件の後");
        self.expect(&TokenKind::Indent, "when 分岐の前");
        self.expect(&TokenKind::KwTrue, "when の最初の分岐 (`true`)");
        let then_block = self.parse_when_branch()?;
        self.expect(&TokenKind::KwFalse, "when の2番目の分岐 (`false`)");
        let else_block = self.parse_when_branch()?;
        let end = self.peek_span();
        self.expect(&TokenKind::Dedent, "when の末尾");
        Some(
            Expr::When {
                cond: Box::new(cond),
                then_block: Box::new(then_block),
                else_block: Box::new(else_block),
                span: start.merge(end),
            },
        )
    }

    fn parse_when_branch(&mut self) -> (r: Option<Block>)
        requires
            old(self).inv(),
        ensures
            final(self).moved_from(old(self)),
            !(old(self).cur() is Newline) ==> (r matches Some(b) ==> b.bindings@.len() == 0),
            r is None ==> final(self).reported_since(old(self)),
            r is Some ==> final(self).pos > old(self).pos,
        decreases old(self).remaining(), 26nat,
    {
        if self.check(&TokenKind::Newline) {
            // full form: true NEWLINE INDENT block DEDENT
            self.advance();
            self.expect(&TokenKind::Indent, "when 分岐本体の前");
            let block = self.parse_block()?;
            self.expect(&TokenKind::Dedent, "when 分岐本体の後");
            Some(block)
        } else {
            // short form: true expr NEWLINE
            let e = self.parse_expr()?;
            self.expect(&TokenKind::Newline, "when 短縮分岐の後");
            Some(Block { bindings: Vec::new(), result: e })
        }
    }

    #[verifier::loop_isolation(false)]
    fn parse_match(&mut self) -> (r: Option<Expr>)
        requires
            old(self).inv(),
            old(self).cur() is KwMatch,
        ensures
            final(self).moved_from(old(self)),
            r is None ==> final(self).reported_since(old(self)),
            r is Some ==> final(self).pos > old(self).pos,
            r is Some ==> r->0 is Match,
        decreases old(self).remaining(), 27nat,
    {
        let start = self.peek_span();
        self.advance();
        let scrutinee = self.parse_expr()?;
        self.expect(&TokenKind::Newline, "match 対象の後");
        self.expect(&TokenKind::Indent, "match 分岐の前");
        let mut arms: Vec<MatchArm> = Vec::new();
        while !self.check(&TokenKind::Dedent) && !self.check(&TokenKind::Eof)
            invariant
                self.moved_from(old(self)),
                self.pos > old(self).pos,
            decreases self.remaining(),
        {
            let (ctor, ctor_span) = self.expect_upper("match 分岐のコンストラクタ名")?;
            let binding = if let TokenKind::LowerIdent(b) = self.peek() {
                let b = b.clone();
                let sp = self.peek_span();
                self.advance();
                Some((b, sp))
            } else {
                None
            };
            self.expect(&TokenKind::Newline, "match 分岐ヘッダの後");
            self.expect(&TokenKind::Indent, "match 分岐本体の前");
            let body = self.parse_block()?;
            self.expect(&TokenKind::Dedent, "match 分岐本体の後");
            arms.push(MatchArm { ctor, ctor_span, binding, body });
        }
        let end = self.peek_span();
        self.expect(&TokenKind::Dedent, "match の末尾");
        Some(Expr::Match { scrutinee: Box::new(scrutinee), arms, span: start.merge(end) })
    }

    // ---- flows ----
    fn parse_flow_decl(&mut self) -> (r: Option<FlowDecl>)
        requires
            old(self).inv(),
        ensures
            final(self).moved_from(old(self)),
            r matches Some(d) ==> (d.steps@.len() == 0 ==> final(self).reported_since(old(self))),
            r is None ==> final(self).reported_since(old(self)),
            r is Some ==> final(self).pos > old(self).pos,
            r matches Some(d) ==> !(old(self).cur() is Eof) ==> old(self).tokens@[old(self).pos + 1].kind == TokenKind::LowerIdent(d.name) && d.name_span == old(self).tokens@[old(self).pos + 1].span,
    {
        self.advance();
        let (name, name_span) = self.expect_lower("F 名")?;
        self.expect(&TokenKind::Newline, "F ヘッダの後");
        self.expect(&TokenKind::Indent, "F 本体の前");
        // a signature line holds a `>` outside brackets before its end
        let signature = if self.line_has_signature_arrow() {
            let input = self.parse_type_expr()?;
            self.expect(&TokenKind::Gt, "F シグネチャの入力型の後");
            let output = self.parse_type_expr()?;
            let can_fail = if self.eat(&TokenKind::Bang) {
                self.expect(&TokenKind::KwError, "`!` の後");
                true
            } else {
                false
            };
            self.expect(&TokenKind::Newline, "F シグネチャの後");
            Some(FlowSignature { input, output, can_fail })
        } else {
            None
        };
        let steps = self.parse_flow_steps()?;
        self.expect(&TokenKind::Dedent, "F 本体の末尾");
        if steps.len() == 0 {
            self.diags.emit(
                codes::PARSE_UNEXPECTED,
                name_span,
                cat3("F `", name.as_str(), "` には少なくとも1つのステップが必要です"),
            );
        }
        Some(FlowDecl { name, name_span, signature, steps })
    }

    fn line_has_signature_arrow(&self) -> (b: bool)
        requires
            self.inv(),
        ensures
            b == arrow_on_line(self.tokens@, self.pos as int, 0),
    {
        let mut i = self.pos;
        let mut depth: u32 = 0;
        while i < self.tokens.len()
            invariant
                self.inv(),
                self.pos <= i <= self.tokens@.len(),
                arrow_on_line(self.tokens@, i as int, depth as int)
                    == arrow_on_line(self.tokens@, self.pos as int, 0),
            decreases self.tokens@.len() - i,
        {
            match &self.tokens[i].kind {
                TokenKind::Newline | TokenKind::Eof => {
                    return false;
                },
                TokenKind::LParen | TokenKind::LBrace | TokenKind::LBracket | TokenKind::Lt => {
                    if depth < u32::MAX {
                        depth = depth + 1;
                    }
                },
                TokenKind::RParen | TokenKind::RBrace | TokenKind::RBracket => {
                    if depth > 0 {
                        depth = depth - 1;
                    }
                },
                TokenKind::Gt => {
                    if depth == 0 {
                        return true;
                    }
                    depth = depth - 1;
                },
                _ => {},
            }
            i = i + 1;
        }
        false
    }

    /// Reads flow steps up to (not including) a DEDENT.
    #[verifier::loop_isolation(false)]
    fn parse_flow_steps(&mut self) -> (r: Option<Vec<FlowStep>>)
        requires
            old(self).inv(),
        ensures
            final(self).moved_from(old(self)),
            r is None ==> final(self).reported_since(old(self)),
            r is Some ==> final(self).cur() is Dedent || final(self).cur() is Eof,
        decreases old(self).remaining(), 40nat,
    {
        let mut steps: Vec<FlowStep> = Vec::new();
        let mut stop = false;
        while !stop && !self.check(&TokenKind::Dedent) && !self.check(&TokenKind::Eof)
            invariant
                self.moved_from(old(self)),
                !stop,
            decreases self.remaining(), (if stop {
                0int
            } else {
                1int
            }),
        {
            let before = self.pos;
            if self.check(&TokenKind::KwMatch) {
                let m = self.parse_flow_match()?;
                steps.push(m);
            } else {
                let expr = self.parse_expr()?;
                self.expect(&TokenKind::Newline, "F ステップの後");
                match expr {
                    Expr::Name { path, span } => steps.push(FlowStep::Call { path, span }),
                    Expr::IntLit(..) | Expr::DecimalLit(..) | Expr::TextLit(..) | Expr::CharLit(..)
                    | Expr::BoolLit(..) | Expr::VoidLit(..) | Expr::Construct { .. } | Expr::From {
                        ..
                    } | Expr::Record { .. } | Expr::ListConstruct { .. } | Expr::Empty { .. } => {
                        steps.push(FlowStep::Initial(expr))
                    },
                    other => {
                        let sp = other.span();
                        self.diags.emit_with_hint(
                            codes::PARSE_FLOW_FORBIDDEN,
                            sp,
                            String::from_str("F には値の構築と R/F の接続だけを書けます"),
                            String::from_str("計算やローカル束縛は R へ分離してください"),
                        );
                    },
                }
            }
            if self.pos == before {
                stop = true;
            }
        }
        Some(steps)
    }

    #[verifier::loop_isolation(false)]
    fn parse_flow_match(&mut self) -> (r: Option<FlowStep>)
        requires
            old(self).inv(),
            old(self).cur() is KwMatch,
        ensures
            final(self).moved_from(old(self)),
            r is None ==> final(self).reported_since(old(self)),
            r is Some ==> final(self).pos > old(self).pos,
            r is Some ==> r->0 is Match,
        decreases old(self).remaining(), 39nat,
    {
        let start = self.peek_span();
        self.advance();
        self.expect(&TokenKind::Newline, "F の match の後");
        self.expect(&TokenKind::Indent, "F の match 分岐の前");
        let mut arms: Vec<FlowMatchArm> = Vec::new();
        while !self.check(&TokenKind::Dedent) && !self.check(&TokenKind::Eof)
            invariant
                self.moved_from(old(self)),
                self.pos > old(self).pos,
            decreases self.remaining(),
        {
            let (ctor, ctor_span) = self.expect_upper("match 分岐のコンストラクタ名")?;
            self.expect(&TokenKind::Newline, "match 分岐ヘッダの後");
            self.expect(&TokenKind::Indent, "match 分岐本体の前");
            let steps = self.parse_flow_steps()?;
            self.expect(&TokenKind::Dedent, "match 分岐本体の後");
            arms.push(FlowMatchArm { ctor, ctor_span, steps });
        }
        let end = self.peek_span();
        self.expect(&TokenKind::Dedent, "F の match の末尾");
        Some(FlowStep::Match { arms, span: start.merge(end) })
    }

    // ---- expressions ----
    fn parse_expr(&mut self) -> (r: Option<Expr>)
        requires
            old(self).inv(),
        ensures
            final(self).moved_from(old(self)),
            old(self).lone_literal() matches Some(x) ==> r == Some(x) && final(self).pos == old(self).pos + 1,
            r is None ==> final(self).reported_since(old(self)),
            r is Some ==> final(self).pos > old(self).pos,
            r is Some ==> !(final(self).cur() is KwOr),
        decreases old(self).remaining(), 20nat,
    {
        self.parse_or()
    }

    fn binary(op: BinOp, left: Expr, right: Expr) -> (e: Expr)
        ensures
            e == (Expr::Binary {
                op,
                left: Box::new(left),
                right: Box::new(right),
                span: crate::span::spec_merge(left.spec_span(), right.spec_span()),
            }),
    {
        let span = left.span().merge(right.span());
        Expr::Binary { op, left: Box::new(left), right: Box::new(right), span }
    }

    #[verifier::loop_isolation(false)]
    fn parse_or(&mut self) -> (r: Option<Expr>)
        requires
            old(self).inv(),
        ensures
            final(self).moved_from(old(self)),
            old(self).lone_literal() matches Some(x) ==> r == Some(x) && final(self).pos == old(self).pos + 1,
            r is None ==> final(self).reported_since(old(self)),
            r is Some ==> final(self).pos > old(self).pos,
            r is Some ==> !(final(self).cur() is KwOr),
        decreases old(self).remaining(), 19nat,
    {
        let mut left = self.parse_and()?;
        while self.check(&TokenKind::KwOr)
            invariant
                self.moved_from(old(self)),
                self.pos > old(self).pos,
                old(self).lone_literal() matches Some(x) ==> left == x && self.pos == old(self).pos + 1,
            decreases self.remaining(),
        {
            self.advance();
            let right = self.parse_and()?;
            left = Self::binary(BinOp::Or, left, right);
        }
        Some(left)
    }

    #[verifier::loop_isolation(false)]
    fn parse_and(&mut self) -> (r: Option<Expr>)
        requires
            old(self).inv(),
        ensures
            final(self).moved_from(old(self)),
            old(self).lone_literal() matches Some(x) ==> r == Some(x) && final(self).pos == old(self).pos + 1,
            r is None ==> final(self).reported_since(old(self)),
            r is Some ==> final(self).pos > old(self).pos,
            r is Some ==> !(final(self).cur() is KwAnd),
        decreases old(self).remaining(), 18nat,
    {
        let mut left = self.parse_equality()?;
        while self.check(&TokenKind::KwAnd)
            invariant
                self.moved_from(old(self)),
                self.pos > old(self).pos,
                old(self).lone_literal() matches Some(x) ==> left == x && self.pos == old(self).pos + 1,
            decreases self.remaining(),
        {
            self.advance();
            let right = self.parse_equality()?;
            left = Self::binary(BinOp::And, left, right);
        }
        Some(left)
    }

    #[verifier::loop_isolation(false)]
    fn parse_equality(&mut self) -> (r: Option<Expr>)
        requires
            old(self).inv(),
        ensures
            final(self).moved_from(old(self)),
            old(self).lone_literal() matches Some(x) ==> r == Some(x) && final(self).pos == old(self).pos + 1,
            r is None ==> final(self).reported_since(old(self)),
            r is Some ==> final(self).pos > old(self).pos,
            r is Some ==> !(final(self).cur() is EqEq) && !(final(self).cur() is NotEq),
        decreases old(self).remaining(), 17nat,
    {
        let mut left = self.parse_relational()?;
        loop
            invariant
                self.moved_from(old(self)),
                self.pos > old(self).pos,
                old(self).lone_literal() matches Some(x) ==> left == x && self.pos == old(self).pos + 1,
            decreases self.remaining(),
        {
            let op = if self.check(&TokenKind::EqEq) {
                BinOp::Eq
            } else if self.check(&TokenKind::NotEq) {
                BinOp::Ne
            } else {
                break ;
            };
            self.advance();
            let right = self.parse_relational()?;
            left = Self::binary(op, left, right);
        }
        Some(left)
    }

    #[verifier::loop_isolation(false)]
    fn parse_relational(&mut self) -> (r: Option<Expr>)
        requires
            old(self).inv(),
        ensures
            final(self).moved_from(old(self)),
            old(self).lone_literal() matches Some(x) ==> r == Some(x) && final(self).pos == old(self).pos + 1,
            r is None ==> final(self).reported_since(old(self)),
            r is Some ==> final(self).pos > old(self).pos,
            r is Some ==> !(final(self).cur() is Lt) && !(final(self).cur() is Le) && !(final(self).cur() is Gt) && !(final(self).cur() is Ge),
        decreases old(self).remaining(), 16nat,
    {
        let mut left = self.parse_additive()?;
        loop
            invariant
                self.moved_from(old(self)),
                self.pos > old(self).pos,
                old(self).lone_literal() matches Some(x) ==> left == x && self.pos == old(self).pos + 1,
            decreases self.remaining(),
        {
            let op = if self.check(&TokenKind::Lt) {
                BinOp::Lt
            } else if self.check(&TokenKind::Le) {
                BinOp::Le
            } else if self.check(&TokenKind::Gt) {
                BinOp::Gt
            } else if self.check(&TokenKind::Ge) {
                BinOp::Ge
            } else {
                break ;
            };
            self.advance();
            let right = self.parse_additive()?;
            left = Self::binary(op, left, right);
        }
        Some(left)
    }

    #[verifier::loop_isolation(false)]
    fn parse_additive(&mut self) -> (r: Option<Expr>)
        requires
            old(self).inv(),
        ensures
            final(self).moved_from(old(self)),
            old(self).lone_literal() matches Some(x) ==> r == Some(x) && final(self).pos == old(self).pos + 1,
            r is None ==> final(self).reported_since(old(self)),
            r is Some ==> final(self).pos > old(self).pos,
            r is Some ==> !(final(self).cur() is Plus) && !(final(self).cur() is Minus),
            additive_chain(old(self).tokens@, old(self).pos as int) matches Some((e, end)) ==> r == Some(e)
                && final(self).pos == end,
            sum_chain(old(self).tokens@, old(self).pos as int) matches Some((e, end)) ==> r == Some(e)
                && final(self).pos == end,
        decreases old(self).remaining(), 15nat,
    {
        let mut left = self.parse_multiplicative()?;
        loop
            invariant
                self.moved_from(old(self)),
                self.pos > old(self).pos,
                old(self).lone_literal() matches Some(x) ==> left == x && self.pos == old(self).pos + 1,
                additive_chain(old(self).tokens@, old(self).pos as int) is Some ==> additive_rest(
                    self.tokens@,
                    self.pos as int,
                    left,
                ) == additive_chain(old(self).tokens@, old(self).pos as int),
                sum_chain(old(self).tokens@, old(self).pos as int) is Some ==> sum_rest(
                    self.tokens@,
                    self.pos as int,
                    left,
                ) == sum_chain(old(self).tokens@, old(self).pos as int),
            decreases self.remaining(),
        {
            let op = if self.check(&TokenKind::Plus) {
                BinOp::Add
            } else if self.check(&TokenKind::Minus) {
                BinOp::Sub
            } else {
                break ;
            };
            self.advance();
            let right = self.parse_multiplicative()?;
            left = Self::binary(op, left, right);
        }
        Some(left)
    }

    #[verifier::loop_isolation(false)]
    fn parse_multiplicative(&mut self) -> (r: Option<Expr>)
        requires
            old(self).inv(),
        ensures
            final(self).moved_from(old(self)),
            old(self).lone_literal() matches Some(x) ==> r == Some(x) && final(self).pos == old(self).pos + 1,
            r is None ==> final(self).reported_since(old(self)),
            r is Some ==> final(self).pos > old(self).pos,
            r is Some ==> !(final(self).cur() is Star) && !(final(self).cur() is Slash) && !(final(self).cur() is Percent),
            lone_operand(old(self).tokens@, old(self).pos as int) matches Some(x) ==> r == Some(x)
                && final(self).pos == old(self).pos + 1,
            multiplicative_chain(old(self).tokens@, old(self).pos as int) matches Some((e, end)) ==> r == Some(e)
                && final(self).pos == end,
        decreases old(self).remaining(), 14nat,
    {
        let mut left = self.parse_unary()?;
        loop
            invariant
                self.moved_from(old(self)),
                self.pos > old(self).pos,
                old(self).lone_literal() matches Some(x) ==> left == x && self.pos == old(self).pos + 1,
                lone_operand(old(self).tokens@, old(self).pos as int) matches Some(x) ==> left == x && self.pos == old(self).pos
                    + 1,
                multiplicative_chain(old(self).tokens@, old(self).pos as int) is Some ==> multiplicative_rest(
                    self.tokens@,
                    self.pos as int,
                    left,
                ) == multiplicative_chain(old(self).tokens@, old(self).pos as int),
            decreases self.remaining(),
        {
            let op = if self.check(&TokenKind::Star) {
                BinOp::Mul
            } else if self.check(&TokenKind::Slash) {
                BinOp::Div
            } else if self.check(&TokenKind::Percent) {
                BinOp::Rem
            } else {
                break ;
            };
            self.advance();
            let right = self.parse_unary()?;
            left = Self::binary(op, left, right);
        }
        Some(left)
    }

    fn parse_unary(&mut self) -> (r: Option<Expr>)
        requires
            old(self).inv(),
        ensures
            final(self).moved_from(old(self)),
            old(self).lone_literal() matches Some(x) ==> r == Some(x) && final(self).pos == old(self).pos + 1,
            r is None ==> final(self).reported_since(old(self)),
            r is Some ==> final(self).pos > old(self).pos,
            old(self).cur() is Minus && r is Some ==> r->0 matches Expr::Unary { op: UnaryOp::Neg, .. },
            old(self).cur() is KwNot && r is Some ==> r->0 matches Expr::Unary { op: UnaryOp::Not, .. },
            literal_of(old(self).cur(), old(self).tokens@[old(self).pos as int].span) matches Some(x) ==> r == Some(x)
                && final(self).pos == old(self).pos + 1,
        decreases old(self).remaining(), 13nat,
    {
        let start = self.peek_span();
        if self.check(&TokenKind::Minus) || self.check(&TokenKind::KwNot) {
            let op = if self.check(&TokenKind::Minus) {
                UnaryOp::Neg
            } else {
                UnaryOp::Not
            };
            self.advance();
            let operand = self.parse_unary()?;
            let span = start.merge(operand.span());
            Some(Expr::Unary { op, operand: Box::new(operand), span })
        } else {
            self.parse_app()
        }
    }

    /// `at` expressions and calls (a name followed by blank-separated arguments).
    #[verifier::loop_isolation(false)]
    fn parse_app(&mut self) -> (r: Option<Expr>)
        requires
            old(self).inv(),
        ensures
            final(self).moved_from(old(self)),
            old(self).lone_literal() matches Some(x) ==> r == Some(x) && final(self).pos == old(self).pos + 1,
            r is None ==> final(self).reported_since(old(self)),
            r is Some ==> final(self).pos > old(self).pos,
            old(self).cur() is KwAt && r is Some ==> r->0 is At,
            literal_of(old(self).cur(), old(self).tokens@[old(self).pos as int].span) matches Some(x) ==> r == Some(x)
                && final(self).pos == old(self).pos + 1,
            lower_word(old(self).cur()) is Some && !(old(self).next_kind() is Dot) && !(old(self).next_kind() is Lt)
                && !starts_primary_kind(old(self).next_kind()) ==> r is Some && simple_name(r->0, lower_word(old(self).cur())->0),
            lower_word(old(self).cur()) is Some && !(old(self).next_kind() is Dot) && starts_primary_kind(old(self).next_kind())
                && r is Some ==> simple_call(r->0, lower_word(old(self).cur())->0),
        decreases old(self).remaining(), 12nat,
    {
        if self.check(&TokenKind::KwAt) {
            let start = self.peek_span();
            self.advance();
            let list = self.parse_primary()?;
            let index = self.parse_primary()?;
            let span = start.merge(index.span());
            return Some(Expr::At { list: Box::new(list), index: Box::new(index), span });
        }
        let head = self.parse_primary()?;
        // a name directly followed by a primary expression is a call
        if let Expr::Name { path, span } = head {
            if self.starts_primary() {
                let mut args: Vec<Expr> = Vec::new();
                let mut end = span;
                while self.starts_primary()
                    invariant
                        self.moved_from(old(self)),
                        self.pos > old(self).pos,
                        args@.len() >= 1 || starts_primary_kind(self.cur()),
                    decreases self.remaining(),
                {
                    let before = self.pos;
                    let a = self.parse_primary()?;
                    end = end.merge(a.span());
                    args.push(a);
                    if self.pos == before {
                        return Some(Expr::Call { path, args, span: end });
                    }
                }
                return Some(Expr::Call { path, args, span: end });
            }
            return Some(Expr::Name { path, span });
        }
        Some(head)
    }

    fn starts_primary(&self) -> (b: bool)
        requires
            self.inv(),
        ensures
            b == starts_primary_kind(self.cur()),
    {
        match self.peek() {
            TokenKind::IntLit(_) | TokenKind::DecimalLit(_) | TokenKind::TextLit(_)
            | TokenKind::CharLit(_) | TokenKind::KwTrue | TokenKind::KwFalse | TokenKind::KwVoid
            | TokenKind::UpperIdent(_) | TokenKind::LowerIdent(_) | TokenKind::LParen => true,
            _ => false,
        }
    }

    #[verifier::loop_isolation(false)]
    fn parse_primary(&mut self) -> (r: Option<Expr>)
        requires
            old(self).inv(),
        ensures
            final(self).moved_from(old(self)),
            r is None ==> final(self).reported_since(old(self)),
            r is Some ==> final(self).pos > old(self).pos,
            literal_of(old(self).cur(), old(self).tokens@[old(self).pos as int].span) matches Some(x) ==> r == Some(x)
                && final(self).pos == old(self).pos + 1,
            lower_word(old(self).cur()) is Some && !(old(self).next_kind() is Dot) && !(old(self).next_kind() is Lt) ==> {
                &&& r is Some
                &&& simple_name(r->0, lower_word(old(self).cur())->0)
                &&& final(self).pos == old(self).pos + 1
            },
        decreases old(self).remaining(), 10nat,
    {
        let start = self.peek_span();
        match self.peek() {
            TokenKind::IntLit(v) => {
                let v = *v;
                self.advance();
                return Some(Expr::IntLit(v, start));
            },
            TokenKind::DecimalLit(d) => {
                let d = *d;
                self.advance();
                return Some(Expr::DecimalLit(d, start));
            },
            TokenKind::TextLit(s) => {
                let s = s.clone();
                self.advance();
                return Some(Expr::TextLit(s, start));
            },
            TokenKind::CharLit(c) => {
                let c = *c;
                self.advance();
                return Some(Expr::CharLit(c, start));
            },
            TokenKind::KwTrue => {
                self.advance();
                return Some(Expr::BoolLit(true, start));
            },
            TokenKind::KwFalse => {
                self.advance();
                return Some(Expr::BoolLit(false, start));
            },
            TokenKind::KwVoid => {
                self.advance();
                return Some(Expr::VoidLit(start));
            },
            _ => {},
        }
        assert(literal_of(old(self).cur(), old(self).tokens@[old(self).pos as int].span) is None);
        if self.check(&TokenKind::LParen) {
            self.advance();
            self.skip_newlines();
            let e = self.parse_expr()?;
            self.skip_newlines();
            self.expect(&TokenKind::RParen, "括弧式の後");
            return Some(e);
        }
        if let TokenKind::UpperIdent(name) = self.peek() {
            let name = name.clone();
            self.advance();
            return self.parse_construct_tail(None, name, start);
        }
        if let TokenKind::LowerIdent(first) = self.peek() {
            let first = first.clone();
            let ghost w = first@;
            self.advance();
            let mut path: Vec<(String, Span)> = Vec::new();
            path.push((first, start));
            let mut span = start;
            loop
                invariant
                    self.moved_from(old(self)),
                    self.pos > old(self).pos,
                    path@.len() >= 1,
                    path@[0].0@ == w,
                    w == lower_word(old(self).cur())->0,
                    path@.len() == 1 ==> self.pos == old(self).pos + 1,
                    path@.len() > 1 ==> old(self).next_kind() is Dot,
                    literal_of(old(self).cur(), old(self).tokens@[old(self).pos as int].span) is None,
                decreases self.remaining(),
            {
                if !self.check(&TokenKind::Dot) {
                    break ;
                }
                if let TokenKind::LowerIdent(seg) = self.peek_at(1) {
                    let seg = seg.clone();
                    self.advance();
                    let sp = self.peek_span();
                    self.advance();
                    span = span.merge(sp);
                    path.push((seg, sp));
                } else if let TokenKind::UpperIdent(name) = self.peek_at(1) {
                    // qualified construction: std.RangeInput { ... } and the like
                    let name = name.clone();
                    self.advance();
                    let name_span = self.peek_span();
                    self.advance();
                    let mut qual = String::new();
                    let mut i: usize = 0;
                    while i < path.len()
                        decreases path@.len() - i,
                    {
                        if i > 0 {
                            qual.append(".");
                        }
                        qual.append(path[i].0.as_str());
                        i = i + 1;
                    }
                    return self.parse_construct_tail(Some(qual), name, name_span);
                } else {
                    break ;
                }
            }
            // std.empty<T>
            let last_is_empty = {
                let last = &path[path.len() - 1].0;
                crate::text_fmt::str_is(last, "empty")
            };
            if last_is_empty && self.check(&TokenKind::Lt) {
                let saved = self.pos;
                self.advance();
                if let Some(elem) = self.try_parse_type_expr_quiet() {
                    if self.check(&TokenKind::Gt) {
                        let end = self.peek_span();
                        self.advance();
                        return Some(Expr::Empty { path, elem, span: span.merge(end) });
                    }
                }
                self.pos = saved;
            }
            return Some(Expr::Name { path, span });
        }
        let found = self.peek().describe();
        self.diags.emit(
            codes::PARSE_UNEXPECTED,
            start,
            cat3("式が必要ですが、", found.as_str(), "が見つかりました"),
        );
        None
    }

    /// Reads what follows an upper-case name: a record, a list usage type,
    /// a `from` conversion, or a usage type / constructor with an optional argument.
    #[verifier::loop_isolation(false)]
    fn parse_construct_tail(&mut self, qualifier: Option<String>, name: String, name_span: Span) -> (r: Option<Expr>)
        requires
            old(self).inv(),
        ensures
            final(self).moved_from(old(self)),
            r is None ==> final(self).reported_since(old(self)),
            r matches Some(e) ==> construct_head(e) == Some((qualifier, name, name_span)),
        decreases old(self).remaining(), 11nat,
    {
        if self.check(&TokenKind::KwFrom) {
            // `A from x`
            self.advance();
            let value = self.parse_primary()?;
            let span = name_span.merge(value.span());
            Some(Expr::From { qualifier, name, name_span, value: Box::new(value), span })
        } else if self.check(&TokenKind::LBrace) {
            self.advance();
            let mut fields: Vec<RecordFieldInit> = Vec::new();
            let mut stop = false;
            while !stop
                invariant
                    self.moved_from(old(self)),
                    self.pos > old(self).pos,
                decreases self.remaining(), (if stop {
                    0int
                } else {
                    1int
                }),
            {
                self.skip_newlines();
                if self.check(&TokenKind::RBrace) {
                    stop = true;
                } else if self.check(&TokenKind::Eof) {
                    self.expect(&TokenKind::RBrace, "レコード構築");
                    return None;
                } else {
                    let (fname, fspan) = self.expect_lower("レコードのフィールド名")?;
                    self.expect(&TokenKind::Eq, "フィールド名の後");
                    // a field value may continue on the next line
                    self.skip_newlines();
                    let value = self.parse_expr()?;
                    fields.push(RecordFieldInit { name: fname, name_span: fspan, value });
                    if !self.check(&TokenKind::RBrace) && !self.eat(&TokenKind::Newline) {
                        self.expect(&TokenKind::Newline, "フィールド初期化の後");
                        return None;
                    }
                }
            }
            let end = self.peek_span();
            self.advance();
            Some(Expr::Record { qualifier, name, name_span, fields, span: name_span.merge(end) })
        } else if self.check(&TokenKind::LParen) {
            self.advance();
            let mut elems: Vec<Expr> = Vec::new();
            let mut stop = false;
            while !stop
                invariant
                    self.moved_from(old(self)),
                    self.pos > old(self).pos,
                decreases self.remaining(), (if stop {
                    0int
                } else {
                    1int
                }),
            {
                self.skip_newlines();
                if self.check(&TokenKind::RParen) {
                    stop = true;
                } else if self.check(&TokenKind::Eof) {
                    self.expect(&TokenKind::RParen, "リスト用途型構築");
                    return None;
                } else {
                    let before = self.pos;
                    let e = self.parse_expr()?;
                    elems.push(e);
                    if !self.check(&TokenKind::RParen) && !self.eat(&TokenKind::Newline) {
                        self.expect(&TokenKind::Newline, "リスト要素の後");
                        return None;
                    }
                    if self.pos == before {
                        stop = true;
                    }
                }
            }
            let end = self.peek_span();
            self.advance();
            Some(Expr::ListConstruct { qualifier, name, name_span, elems, span: name_span.merge(end) })
        } else if self.starts_primary() {
            let arg = self.parse_primary()?;
            let span = name_span.merge(arg.span());
            Some(Expr::Construct { qualifier, name, name_span, arg: Some(Box::new(arg)), span })
        } else {
            Some(Expr::Construct { qualifier, name, name_span, arg: None, span: name_span })
        }
    }
}

} // verus!
