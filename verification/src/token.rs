//! Tokens.
use crate::decimal::{decimal_text, Dec};
use crate::span::Span;
use crate::text_fmt::{cat3, i64_text};
use vstd::prelude::*;
use vstd::string::*;

verus! {

#[derive(Debug, Clone, PartialEq)]
pub enum TokenKind {
    Newline,
    Indent,
    Dedent,
    Eof,
    KwImport,
    KwAs,
    KwT,
    KwC,
    KwR,
    KwF,
    KwWhen,
    KwMatch,
    KwAt,
    KwTrue,
    KwFalse,
    KwAnd,
    KwOr,
    KwNot,
    KwVoid,
    KwError,
    KwList,
    KwFrom,
    UpperIdent(String),
    LowerIdent(String),
    IntLit(i64),
    DecimalLit(Dec),
    TextLit(String),
    CharLit(char),
    Gt,
    Lt,
    Ge,
    Le,
    EqEq,
    NotEq,
    Arrow,
    Bang,
    Pipe,
    LBracket,
    RBracket,
    LBrace,
    RBrace,
    LParen,
    RParen,
    Dot,
    Comma,
    Colon,
    Eq,
    Plus,
    Minus,
    Star,
    Slash,
    Percent,
}

/// A number identifying the variant of a token kind (payloads ignored).
pub open spec fn spec_tag(k: TokenKind) -> nat {
    match k {
        TokenKind::Newline => 0,
        TokenKind::Indent => 1,
        TokenKind::Dedent => 2,
        TokenKind::Eof => 3,
        TokenKind::KwImport => 4,
        TokenKind::KwAs => 5,
        TokenKind::KwT => 6,
        TokenKind::KwC => 7,
        TokenKind::KwR => 8,
        TokenKind::KwF => 9,
        TokenKind::KwWhen => 10,
        TokenKind::KwMatch => 11,
        TokenKind::KwAt => 12,
        TokenKind::KwTrue => 13,
        TokenKind::KwFalse => 14,
        TokenKind::KwAnd => 15,
        TokenKind::KwOr => 16,
        TokenKind::KwNot => 17,
        TokenKind::KwVoid => 18,
        TokenKind::KwError => 19,
        TokenKind::KwList => 20,
        TokenKind::KwFrom => 21,
        TokenKind::UpperIdent(..) => 22,
        TokenKind::LowerIdent(..) => 23,
        TokenKind::IntLit(..) => 24,
        TokenKind::DecimalLit(..) => 25,
        TokenKind::TextLit(..) => 26,
        TokenKind::CharLit(..) => 27,
        TokenKind::Gt => 28,
        TokenKind::Lt => 29,
        TokenKind::Ge => 30,
        TokenKind::Le => 31,
        TokenKind::EqEq => 32,
        TokenKind::NotEq => 33,
        TokenKind::Arrow => 34,
        TokenKind::Bang => 35,
        TokenKind::Pipe => 36,
        TokenKind::LBracket => 37,
        TokenKind::RBracket => 38,
        TokenKind::LBrace => 39,
        TokenKind::RBrace => 40,
        TokenKind::LParen => 41,
        TokenKind::RParen => 42,
        TokenKind::Dot => 43,
        TokenKind::Comma => 44,
        TokenKind::Colon => 45,
        TokenKind::Eq => 46,
        TokenKind::Plus => 47,
        TokenKind::Minus => 48,
        TokenKind::Star => 49,
        TokenKind::Slash => 50,
        TokenKind::Percent => 51,
    }
}

/// How a token kind is named in diagnostic messages.
pub open spec fn kind_text(k: TokenKind) -> Seq<char> {
    match k {
        TokenKind::Newline => "改行"@,
        TokenKind::Indent => "インデント"@,
        TokenKind::Dedent => "デデント"@,
        TokenKind::Eof => "ファイル末尾"@,
        TokenKind::KwImport => "`import`"@,
        TokenKind::KwAs => "`as`"@,
        TokenKind::KwT => "`T`"@,
        TokenKind::KwC => "`C`"@,
        TokenKind::KwR => "`R`"@,
        TokenKind::KwF => "`F`"@,
        TokenKind::KwWhen => "`when`"@,
        TokenKind::KwMatch => "`match`"@,
        TokenKind::KwAt => "`at`"@,
        TokenKind::KwTrue => "`true`"@,
        TokenKind::KwFalse => "`false`"@,
        TokenKind::KwAnd => "`and`"@,
        TokenKind::KwOr => "`or`"@,
        TokenKind::KwNot => "`not`"@,
        TokenKind::KwVoid => "`Void`"@,
        TokenKind::KwError => "`Error`"@,
        TokenKind::KwList => "`List`"@,
        TokenKind::KwFrom => "`from`"@,
        TokenKind::Gt => "`>`"@,
        TokenKind::Lt => "`<`"@,
        TokenKind::Ge => "`>=`"@,
        TokenKind::Le => "`<=`"@,
        TokenKind::EqEq => "`==`"@,
        TokenKind::NotEq => "`!=`"@,
        TokenKind::Arrow => "`=>`"@,
        TokenKind::Bang => "`!`"@,
        TokenKind::Pipe => "`|`"@,
        TokenKind::LBracket => "`[`"@,
        TokenKind::RBracket => "`]`"@,
        TokenKind::LBrace => "`{`"@,
        TokenKind::RBrace => "`}`"@,
        TokenKind::LParen => "`(`"@,
        TokenKind::RParen => "`)`"@,
        TokenKind::Dot => "`.`"@,
        TokenKind::Comma => "`,`"@,
        TokenKind::Colon => "`:`"@,
        TokenKind::Eq => "`=`"@,
        TokenKind::Plus => "`+`"@,
        TokenKind::Minus => "`-`"@,
        TokenKind::Star => "`*`"@,
        TokenKind::Slash => "`/`"@,
        TokenKind::Percent => "`%`"@,
        TokenKind::UpperIdent(s) | TokenKind::LowerIdent(s) => "識別子 `"@ + s@ + "`"@,
        TokenKind::IntLit(v) => "整数 `"@ + crate::text_fmt::int_text(v as int) + "`"@,
        TokenKind::DecimalLit(v) => if v.wf() {
            "小数 `"@ + crate::decimal::dec_display(v) + "`"@
        } else {
            "小数"@
        },
        TokenKind::TextLit(_) => "Text リテラル"@,
        TokenKind::CharLit(_) => "Char リテラル"@,
    }
}

impl TokenKind {
    /// The variant number of the kind.
    pub fn tag(&self) -> (t: u8)
        ensures
            t == spec_tag(*self),
    {
        match self {
            TokenKind::Newline => 0,
            TokenKind::Indent => 1,
            TokenKind::Dedent => 2,
            TokenKind::Eof => 3,
            TokenKind::KwImport => 4,
            TokenKind::KwAs => 5,
            TokenKind::KwT => 6,
            TokenKind::KwC => 7,
            TokenKind::KwR => 8,
            TokenKind::KwF => 9,
            TokenKind::KwWhen => 10,
            TokenKind::KwMatch => 11,
            TokenKind::KwAt => 12,
            TokenKind::KwTrue => 13,
            TokenKind::KwFalse => 14,
            TokenKind::KwAnd => 15,
            TokenKind::KwOr => 16,
            TokenKind::KwNot => 17,
            TokenKind::KwVoid => 18,
            TokenKind::KwError => 19,
            TokenKind::KwList => 20,
            TokenKind::KwFrom => 21,
            TokenKind::UpperIdent(..) => 22,
            TokenKind::LowerIdent(..) => 23,
            TokenKind::IntLit(..) => 24,
            TokenKind::DecimalLit(..) => 25,
            TokenKind::TextLit(..) => 26,
            TokenKind::CharLit(..) => 27,
            TokenKind::Gt => 28,
            TokenKind::Lt => 29,
            TokenKind::Ge => 30,
            TokenKind::Le => 31,
            TokenKind::EqEq => 32,
            TokenKind::NotEq => 33,
            TokenKind::Arrow => 34,
            TokenKind::Bang => 35,
            TokenKind::Pipe => 36,
            TokenKind::LBracket => 37,
            TokenKind::RBracket => 38,
            TokenKind::LBrace => 39,
            TokenKind::RBrace => 40,
            TokenKind::LParen => 41,
            TokenKind::RParen => 42,
            TokenKind::Dot => 43,
            TokenKind::Comma => 44,
            TokenKind::Colon => 45,
            TokenKind::Eq => 46,
            TokenKind::Plus => 47,
            TokenKind::Minus => 48,
            TokenKind::Star => 49,
            TokenKind::Slash => 50,
            TokenKind::Percent => 51,
        }
    }

    /// An equal copy of the kind.
    pub fn copy(&self) -> (k: TokenKind)
        ensures
            k == *self,
    {
        match self {
            TokenKind::Newline => TokenKind::Newline,
            TokenKind::Indent => TokenKind::Indent,
            TokenKind::Dedent => TokenKind::Dedent,
            TokenKind::Eof => TokenKind::Eof,
            TokenKind::KwImport => TokenKind::KwImport,
            TokenKind::KwAs => TokenKind::KwAs,
            TokenKind::KwT => TokenKind::KwT,
            TokenKind::KwC => TokenKind::KwC,
            TokenKind::KwR => TokenKind::KwR,
            TokenKind::KwF => TokenKind::KwF,
            TokenKind::KwWhen => TokenKind::KwWhen,
            TokenKind::KwMatch => TokenKind::KwMatch,
            TokenKind::KwAt => TokenKind::KwAt,
            TokenKind::KwTrue => TokenKind::KwTrue,
            TokenKind::KwFalse => TokenKind::KwFalse,
            TokenKind::KwAnd => TokenKind::KwAnd,
            TokenKind::KwOr => TokenKind::KwOr,
            TokenKind::KwNot => TokenKind::KwNot,
            TokenKind::KwVoid => TokenKind::KwVoid,
            TokenKind::KwError => TokenKind::KwError,
            TokenKind::KwList => TokenKind::KwList,
            TokenKind::KwFrom => TokenKind::KwFrom,
            TokenKind::UpperIdent(s) => TokenKind::UpperIdent(s.clone()),
            TokenKind::LowerIdent(s) => TokenKind::LowerIdent(s.clone()),
            TokenKind::IntLit(x) => TokenKind::IntLit(*x),
            TokenKind::DecimalLit(x) => TokenKind::DecimalLit(*x),
            TokenKind::TextLit(s) => TokenKind::TextLit(s.clone()),
            TokenKind::CharLit(x) => TokenKind::CharLit(*x),
            TokenKind::Gt => TokenKind::Gt,
            TokenKind::Lt => TokenKind::Lt,
            TokenKind::Ge => TokenKind::Ge,
            TokenKind::Le => TokenKind::Le,
            TokenKind::EqEq => TokenKind::EqEq,
            TokenKind::NotEq => TokenKind::NotEq,
            TokenKind::Arrow => TokenKind::Arrow,
            TokenKind::Bang => TokenKind::Bang,
            TokenKind::Pipe => TokenKind::Pipe,
            TokenKind::LBracket => TokenKind::LBracket,
            TokenKind::RBracket => TokenKind::RBracket,
            TokenKind::LBrace => TokenKind::LBrace,
            TokenKind::RBrace => TokenKind::RBrace,
            TokenKind::LParen => TokenKind::LParen,
            TokenKind::RParen => TokenKind::RParen,
            TokenKind::Dot => TokenKind::Dot,
            TokenKind::Comma => TokenKind::Comma,
            TokenKind::Colon => TokenKind::Colon,
            TokenKind::Eq => TokenKind::Eq,
            TokenKind::Plus => TokenKind::Plus,
            TokenKind::Minus => TokenKind::Minus,
            TokenKind::Star => TokenKind::Star,
            TokenKind::Slash => TokenKind::Slash,
            TokenKind::Percent => TokenKind::Percent,
        }
    }

    /// The kind as named in diagnostic messages.
    pub fn describe(&self) -> (s: String)
        ensures
            s@ == kind_text(*self),
    {
        match self {
            TokenKind::Newline => {
                String::from_str("改行")
            },
            TokenKind::Indent => {
                String::from_str("インデント")
            },
            TokenKind::Dedent => {
                String::from_str("デデント")
            },
            TokenKind::Eof => {
                String::from_str("ファイル末尾")
            },
            TokenKind::KwImport => {
                String::from_str("`import`")
            },
            TokenKind::KwAs => {
                String::from_str("`as`")
            },
            TokenKind::KwT => {
                String::from_str("`T`")
            },
            TokenKind::KwC => {
                String::from_str("`C`")
            },
            TokenKind::KwR => {
                String::from_str("`R`")
            },
            TokenKind::KwF => {
                String::from_str("`F`")
            },
            TokenKind::KwWhen => {
                String::from_str("`when`")
            },
            TokenKind::KwMatch => {
                String::from_str("`match`")
            },
            TokenKind::KwAt => {
                String::from_str("`at`")
            },
            TokenKind::KwTrue => {
                String::from_str("`true`")
            },
            TokenKind::KwFalse => {
                String::from_str("`false`")
            },
            TokenKind::KwAnd => {
                String::from_str("`and`")
            },
            TokenKind::KwOr => {
                String::from_str("`or`")
            },
            TokenKind::KwNot => {
                String::from_str("`not`")
            },
            TokenKind::KwVoid => {
                String::from_str("`Void`")
            },
            TokenKind::KwError => {
                String::from_str("`Error`")
            },
            TokenKind::KwList => {
                String::from_str("`List`")
            },
            TokenKind::KwFrom => {
                String::from_str("`from`")
            },
            TokenKind::Gt => {
                String::from_str("`>`")
            },
            TokenKind::Lt => {
                String::from_str("`<`")
            },
            TokenKind::Ge => {
                String::from_str("`>=`")
            },
            TokenKind::Le => {
                String::from_str("`<=`")
            },
            TokenKind::EqEq => {
                String::from_str("`==`")
            },
            TokenKind::NotEq => {
                String::from_str("`!=`")
            },
            TokenKind::Arrow => {
                String::from_str("`=>`")
            },
            TokenKind::Bang => {
                String::from_str("`!`")
            },
            TokenKind::Pipe => {
                String::from_str("`|`")
            },
            TokenKind::LBracket => {
                String::from_str("`[`")
            },
            TokenKind::RBracket => {
                String::from_str("`]`")
            },
            TokenKind::LBrace => {
                String::from_str("`{`")
            },
            TokenKind::RBrace => {
                String::from_str("`}`")
            },
            TokenKind::LParen => {
                String::from_str("`(`")
            },
            TokenKind::RParen => {
                String::from_str("`)`")
            },
            TokenKind::Dot => {
                String::from_str("`.`")
            },
            TokenKind::Comma => {
                String::from_str("`,`")
            },
            TokenKind::Colon => {
                String::from_str("`:`")
            },
            TokenKind::Eq => {
                String::from_str("`=`")
            },
            TokenKind::Plus => {
                String::from_str("`+`")
            },
            TokenKind::Minus => {
                String::from_str("`-`")
            },
            TokenKind::Star => {
                String::from_str("`*`")
            },
            TokenKind::Slash => {
                String::from_str("`/`")
            },
            TokenKind::Percent => {
                String::from_str("`%`")
            },
            TokenKind::UpperIdent(s) | TokenKind::LowerIdent(s) => cat3("識別子 `", s.as_str(), "`"),
            TokenKind::IntLit(v) => cat3("整数 `", i64_text(*v).as_str(), "`"),
            TokenKind::DecimalLit(v) => if v.is_wf() {
                cat3("小数 `", decimal_text(*v).as_str(), "`")
            } else {
                String::from_str("小数")
            },
            TokenKind::TextLit(_) => String::from_str("Text リテラル"),
            TokenKind::CharLit(_) => String::from_str("Char リテラル"),
        }
    }
}

#[derive(Debug, Clone)]
pub struct Token {
    pub kind: TokenKind,
    pub span: Span,
}

impl Token {
    /// An equal copy of the token.
    pub fn copy(&self) -> (t: Token)
        ensures
            t == *self,
    {
        Token { kind: self.kind.copy(), span: self.span }
    }
}

} // verus!
