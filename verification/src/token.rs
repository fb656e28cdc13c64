//! Lexical tokens. The lexer runs eagerly over the whole source into a
//! `Vec<Token>`, so the parser gets cheap lookahead by index.

use vstd::prelude::*;
use crate::number::{decimal_display, int_text, push_decimal, push_i64};
use crate::span::Span;
use crate::text::{chars_of, is_text, push_char, push_str};

verus! {

#[derive(Debug, PartialEq)]
pub enum TokenKind {
    // Literals
    Int(i64),
    /// A float literal, as written (`1.5`).
    Float(String),
    /// The text between the quotes, with `\"`, `\\`, `\n`, `\t`, `\r`
    /// escapes already resolved.
    QuotedString(String),
    /// A bare (unquoted) run of non-delimiter characters: an identifier, a
    /// literal fallback string, or (with `$`) an interpolated string.
    BareWord(String),
    /// Hex digits only, no leading `#`, exactly 6 or 8 characters.
    ColorLit(String),
    /// The amount (as written) and the unit suffix (`ms`, `s`, `m`) of a
    /// duration literal.
    DurationLit(String, String),
    /// Raw text between a `script {` opener and its matching `}`.
    ScriptBody,
    // Keywords
    If,
    Elseif,
    Else,
    For,
    While,
    Do,
    End,
    Return,
    Local,
    Fn,
    Script,
    Include,
    And,
    Or,
    Not,
    True,
    False,
    Nil,
    // Punctuation
    LBrace,
    RBrace,
    LBracket,
    RBracket,
    LParen,
    RParen,
    Comma,
    Eq,
    Dot,
    At,
    Plus,
    Minus,
    Star,
    Slash,
    Percent,
    DotDot,
    EqEq,
    NotEq,
    Lt,
    Gt,
    LtEq,
    GtEq,
    /// Trivia, preserved so the formatter can keep comments.
    Comment(String, CommentStyle),
    Eof,
}

/// Which marker a comment used.
#[derive(Debug, Clone, Copy, PartialEq, Eq, Structural)]
pub enum CommentStyle {
    Hash,
    DashDash,
    Block,
}

impl Clone for TokenKind {
    fn clone(&self) -> (k: Self)
        ensures
            k == *self,
    {
        match self {
            TokenKind::Int(n) => TokenKind::Int(*n),
            TokenKind::Float(s) => TokenKind::Float(s.clone()),
            TokenKind::QuotedString(s) => TokenKind::QuotedString(s.clone()),
            TokenKind::BareWord(s) => TokenKind::BareWord(s.clone()),
            TokenKind::ColorLit(s) => TokenKind::ColorLit(s.clone()),
            TokenKind::DurationLit(a, u) => TokenKind::DurationLit(a.clone(), u.clone()),
            TokenKind::ScriptBody => TokenKind::ScriptBody,
            TokenKind::If => TokenKind::If,
            TokenKind::Elseif => TokenKind::Elseif,
            TokenKind::Else => TokenKind::Else,
            TokenKind::For => TokenKind::For,
            TokenKind::While => TokenKind::While,
            TokenKind::Do => TokenKind::Do,
            TokenKind::End => TokenKind::End,
            TokenKind::Return => TokenKind::Return,
            TokenKind::Local => TokenKind::Local,
            TokenKind::Fn => TokenKind::Fn,
            TokenKind::Script => TokenKind::Script,
            TokenKind::Include => TokenKind::Include,
            TokenKind::And => TokenKind::And,
            TokenKind::Or => TokenKind::Or,
            TokenKind::Not => TokenKind::Not,
            TokenKind::True => TokenKind::True,
            TokenKind::False => TokenKind::False,
            TokenKind::Nil => TokenKind::Nil,
            TokenKind::LBrace => TokenKind::LBrace,
            TokenKind::RBrace => TokenKind::RBrace,
            TokenKind::LBracket => TokenKind::LBracket,
            TokenKind::RBracket => TokenKind::RBracket,
            TokenKind::LParen => TokenKind::LParen,
            TokenKind::RParen => TokenKind::RParen,
            TokenKind::Comma => TokenKind::Comma,
            TokenKind::Eq => TokenKind::Eq,
            TokenKind::Dot => TokenKind::Dot,
            TokenKind::At => TokenKind::At,
            TokenKind::Plus => TokenKind::Plus,
            TokenKind::Minus => TokenKind::Minus,
            TokenKind::Star => TokenKind::Star,
            TokenKind::Slash => TokenKind::Slash,
            TokenKind::Percent => TokenKind::Percent,
            TokenKind::DotDot => TokenKind::DotDot,
            TokenKind::EqEq => TokenKind::EqEq,
            TokenKind::NotEq => TokenKind::NotEq,
            TokenKind::Lt => TokenKind::Lt,
            TokenKind::Gt => TokenKind::Gt,
            TokenKind::LtEq => TokenKind::LtEq,
            TokenKind::GtEq => TokenKind::GtEq,
            TokenKind::Comment(s, st) => TokenKind::Comment(s.clone(), *st),
            TokenKind::Eof => TokenKind::Eof,
        }
    }
}

/// The fixed text of a keyword, punctuation or operator token.
pub open spec fn fixed_text(k: TokenKind) -> Option<Seq<char>> {
    match k {
        TokenKind::If => Some("if"@),
        TokenKind::Elseif => Some("elseif"@),
        TokenKind::Else => Some("else"@),
        TokenKind::For => Some("for"@),
        TokenKind::While => Some("while"@),
        TokenKind::Do => Some("do"@),
        TokenKind::End => Some("end"@),
        TokenKind::Return => Some("return"@),
        TokenKind::Local => Some("local"@),
        TokenKind::Fn => Some("fn"@),
        TokenKind::Script => Some("script"@),
        TokenKind::Include => Some("include"@),
        TokenKind::And => Some("and"@),
        TokenKind::Or => Some("or"@),
        TokenKind::Not => Some("not"@),
        TokenKind::True => Some("true"@),
        TokenKind::False => Some("false"@),
        TokenKind::Nil => Some("nil"@),
        TokenKind::LBrace => Some("{"@),
        TokenKind::RBrace => Some("}"@),
        TokenKind::LBracket => Some("["@),
        TokenKind::RBracket => Some("]"@),
        TokenKind::LParen => Some("("@),
        TokenKind::RParen => Some(")"@),
        TokenKind::Comma => Some(","@),
        TokenKind::Eq => Some("="@),
        TokenKind::Dot => Some("."@),
        TokenKind::At => Some("@"@),
        TokenKind::Plus => Some("+"@),
        TokenKind::Minus => Some("-"@),
        TokenKind::Star => Some("*"@),
        TokenKind::Slash => Some("/"@),
        TokenKind::Percent => Some("%"@),
        TokenKind::DotDot => Some(".."@),
        TokenKind::EqEq => Some("=="@),
        TokenKind::NotEq => Some("~="@),
        TokenKind::Lt => Some("<"@),
        TokenKind::Gt => Some(">"@),
        TokenKind::LtEq => Some("<="@),
        TokenKind::GtEq => Some(">="@),
        _ => None,
    }
}

/// The keyword that a word spells, if any.
pub open spec fn keyword_of(w: Seq<char>) -> Option<TokenKind> {
    if w == "if"@ {
        Some(TokenKind::If)
    } else if w == "elseif"@ {
        Some(TokenKind::Elseif)
    } else if w == "else"@ {
        Some(TokenKind::Else)
    } else if w == "for"@ {
        Some(TokenKind::For)
    } else if w == "while"@ {
        Some(TokenKind::While)
    } else if w == "do"@ {
        Some(TokenKind::Do)
    } else if w == "end"@ {
        Some(TokenKind::End)
    } else if w == "return"@ {
        Some(TokenKind::Return)
    } else if w == "local"@ {
        Some(TokenKind::Local)
    } else if w == "fn"@ {
        Some(TokenKind::Fn)
    } else if w == "script"@ {
        Some(TokenKind::Script)
    } else if w == "include"@ {
        Some(TokenKind::Include)
    } else if w == "and"@ {
        Some(TokenKind::And)
    } else if w == "or"@ {
        Some(TokenKind::Or)
    } else if w == "not"@ {
        Some(TokenKind::Not)
    } else if w == "true"@ {
        Some(TokenKind::True)
    } else if w == "false"@ {
        Some(TokenKind::False)
    } else if w == "nil"@ {
        Some(TokenKind::Nil)
    } else {
        None
    }
}

/// The keyword that `word` spells, if any.
pub fn keyword_chars(w: &[char]) -> (k: Option<TokenKind>)
    ensures
        k == keyword_of(w@),
{
    if is_text(w, "if") {
        Some(TokenKind::If)
    } else if is_text(w, "elseif") {
        Some(TokenKind::Elseif)
    } else if is_text(w, "else") {
        Some(TokenKind::Else)
    } else if is_text(w, "for") {
        Some(TokenKind::For)
    } else if is_text(w, "while") {
        Some(TokenKind::While)
    } else if is_text(w, "do") {
        Some(TokenKind::Do)
    } else if is_text(w, "end") {
        Some(TokenKind::End)
    } else if is_text(w, "return") {
        Some(TokenKind::Return)
    } else if is_text(w, "local") {
        Some(TokenKind::Local)
    } else if is_text(w, "fn") {
        Some(TokenKind::Fn)
    } else if is_text(w, "script") {
        Some(TokenKind::Script)
    } else if is_text(w, "include") {
        Some(TokenKind::Include)
    } else if is_text(w, "and") {
        Some(TokenKind::And)
    } else if is_text(w, "or") {
        Some(TokenKind::Or)
    } else if is_text(w, "not") {
        Some(TokenKind::Not)
    } else if is_text(w, "true") {
        Some(TokenKind::True)
    } else if is_text(w, "false") {
        Some(TokenKind::False)
    } else if is_text(w, "nil") {
        Some(TokenKind::Nil)
    } else {
        None
    }
}

/// The keyword that `word` spells, if any.
pub fn keyword(word: &str) -> (k: Option<TokenKind>)
    ensures
        k == keyword_of(word@),
{
    let w = chars_of(word);
    keyword_chars(w.as_slice())
}

/// A short human name for a token, used in diagnostics ("expected X,
/// found `end`").
pub open spec fn describe_text(k: TokenKind) -> Seq<char> {
    match k {
        TokenKind::Int(n) => int_text(n as int),
        TokenKind::Float(s) => decimal_display(s@),
        TokenKind::QuotedString(s) => seq!['"'] + s@ + seq!['"'],
        TokenKind::BareWord(s) => s@,
        TokenKind::ColorLit(h) => seq!['#'] + h@,
        TokenKind::DurationLit(n, u) => decimal_display(n@) + u@,
        TokenKind::ScriptBody => "script body"@,
        TokenKind::Comment(..) => "comment"@,
        TokenKind::Eof => "end of file"@,
        _ => fixed_text(k)->0,
    }
}

/// Does a token of this kind continue an expression that started at the
/// previous primary?
pub open spec fn continues(k: TokenKind) -> bool {
    match k {
        TokenKind::Plus | TokenKind::Minus | TokenKind::Star | TokenKind::Slash
        | TokenKind::Percent | TokenKind::DotDot | TokenKind::EqEq | TokenKind::NotEq
        | TokenKind::Lt | TokenKind::Gt | TokenKind::LtEq | TokenKind::GtEq | TokenKind::And
        | TokenKind::Or | TokenKind::Dot | TokenKind::LParen => true,
        _ => false,
    }
}

impl TokenKind {
    pub fn is_comment(&self) -> (b: bool)
        ensures
            b == (*self is Comment),
    {
        matches!(self, TokenKind::Comment(..))
    }

    /// A short human name for diagnostics ("expected X, found `end`").
    pub fn describe(&self) -> (s: String)
        ensures
            s@ == describe_text(*self),
    {
        let mut s = String::new();
        match self {
            TokenKind::Int(n) => {
                push_i64(&mut s, *n);
                assert(s@ =~= int_text(*n as int));
            },
            TokenKind::Float(f) => {
                let cs = chars_of(f.as_str());
                push_decimal(&mut s, cs.as_slice(), false);
                assert(s@ =~= decimal_display(f@));
            },
            TokenKind::QuotedString(q) => {
                push_char(&mut s, '"');
                push_str(&mut s, q.as_str());
                push_char(&mut s, '"');
                assert(s@ =~= seq!['"'] + q@ + seq!['"']);
            },
            TokenKind::BareWord(w) => {
                push_str(&mut s, w.as_str());
                assert(s@ =~= w@);
            },
            TokenKind::ColorLit(h) => {
                push_char(&mut s, '#');
                push_str(&mut s, h.as_str());
            },
            TokenKind::DurationLit(n, u) => {
                let cs = chars_of(n.as_str());
                push_decimal(&mut s, cs.as_slice(), false);
                push_str(&mut s, u.as_str());
                assert(s@ =~= decimal_display(n@) + u@);
            },
            _ => {
                push_str(&mut s, self.fixed_name());
                assert(s@ =~= describe_text(*self));
            },
        }
        s
    }

    /// The name of a token without data.
    fn fixed_name(&self) -> (s: &'static str)
        requires
            !(*self is Int || *self is Float || *self is QuotedString || *self is BareWord
                || *self is ColorLit || *self is DurationLit),
        ensures
            s@ == describe_text(*self),
    {
        match self {
            TokenKind::ScriptBody => "script body",
            TokenKind::If => "if",
            TokenKind::Elseif => "elseif",
            TokenKind::Else => "else",
            TokenKind::For => "for",
            TokenKind::While => "while",
            TokenKind::Do => "do",
            TokenKind::End => "end",
            TokenKind::Return => "return",
            TokenKind::Local => "local",
            TokenKind::Fn => "fn",
            TokenKind::Script => "script",
            TokenKind::Include => "include",
            TokenKind::And => "and",
            TokenKind::Or => "or",
            TokenKind::Not => "not",
            TokenKind::True => "true",
            TokenKind::False => "false",
            TokenKind::Nil => "nil",
            TokenKind::LBrace => "{",
            TokenKind::RBrace => "}",
            TokenKind::LBracket => "[",
            TokenKind::RBracket => "]",
            TokenKind::LParen => "(",
            TokenKind::RParen => ")",
            TokenKind::Comma => ",",
            TokenKind::Eq => "=",
            TokenKind::Dot => ".",
            TokenKind::At => "@",
            TokenKind::Plus => "+",
            TokenKind::Minus => "-",
            TokenKind::Star => "*",
            TokenKind::Slash => "/",
            TokenKind::Percent => "%",
            TokenKind::DotDot => "..",
            TokenKind::EqEq => "==",
            TokenKind::NotEq => "~=",
            TokenKind::Lt => "<",
            TokenKind::Gt => ">",
            TokenKind::LtEq => "<=",
            TokenKind::GtEq => ">=",
            TokenKind::Comment(..) => "comment",
            _ => "end of file",
        }
    }

    /// Does this token continue an expression that started at the previous
    /// primary? This decides "single bare token" (a plain value) against
    /// "the start of a real expression".
    pub fn continues_expression(&self) -> (b: bool)
        ensures
            b == continues(*self),
    {
        matches!(
            self,
            TokenKind::Plus | TokenKind::Minus | TokenKind::Star | TokenKind::Slash
                | TokenKind::Percent | TokenKind::DotDot | TokenKind::EqEq | TokenKind::NotEq
                | TokenKind::Lt | TokenKind::Gt | TokenKind::LtEq | TokenKind::GtEq
                | TokenKind::And | TokenKind::Or | TokenKind::Dot | TokenKind::LParen
        )
    }
}

#[derive(Debug, PartialEq)]
pub struct Token {
    pub kind: TokenKind,
    pub span: Span,
}

impl Clone for Token {
    fn clone(&self) -> (t: Self)
        ensures
            t == *self,
    {
        Token { kind: self.kind.clone(), span: self.span }
    }
}

impl Token {
    pub fn new(kind: TokenKind, span: Span) -> (t: Self)
        ensures
            t.kind == kind,
            t.span == span,
    {
        Token { kind, span }
    }
}


/// The variant of a token kind, ignoring any data it carries.
pub open spec fn kind_tag(k: TokenKind) -> int {
    match k {
        TokenKind::Int(..) => 0,
        TokenKind::Float(..) => 1,
        TokenKind::QuotedString(..) => 2,
        TokenKind::BareWord(..) => 3,
        TokenKind::ColorLit(..) => 4,
        TokenKind::DurationLit(..) => 5,
        TokenKind::ScriptBody => 6,
        TokenKind::If => 7,
        TokenKind::Elseif => 8,
        TokenKind::Else => 9,
        TokenKind::For => 10,
        TokenKind::While => 11,
        TokenKind::Do => 12,
        TokenKind::End => 13,
        TokenKind::Return => 14,
        TokenKind::Local => 15,
        TokenKind::Fn => 16,
        TokenKind::Script => 17,
        TokenKind::Include => 18,
        TokenKind::And => 19,
        TokenKind::Or => 20,
        TokenKind::Not => 21,
        TokenKind::True => 22,
        TokenKind::False => 23,
        TokenKind::Nil => 24,
        TokenKind::LBrace => 25,
        TokenKind::RBrace => 26,
        TokenKind::LBracket => 27,
        TokenKind::RBracket => 28,
        TokenKind::LParen => 29,
        TokenKind::RParen => 30,
        TokenKind::Comma => 31,
        TokenKind::Eq => 32,
        TokenKind::Dot => 33,
        TokenKind::At => 34,
        TokenKind::Plus => 35,
        TokenKind::Minus => 36,
        TokenKind::Star => 37,
        TokenKind::Slash => 38,
        TokenKind::Percent => 39,
        TokenKind::DotDot => 40,
        TokenKind::EqEq => 41,
        TokenKind::NotEq => 42,
        TokenKind::Lt => 43,
        TokenKind::Gt => 44,
        TokenKind::LtEq => 45,
        TokenKind::GtEq => 46,
        TokenKind::Comment(..) => 47,
        TokenKind::Eof => 48,
    }
}

/// The variant of a token kind, ignoring any data it carries.
pub fn tag_of(k: &TokenKind) -> (t: u8)
    ensures
        t as int == kind_tag(*k),
{
    match k {
        TokenKind::Int(..) => 0,
        TokenKind::Float(..) => 1,
        TokenKind::QuotedString(..) => 2,
        TokenKind::BareWord(..) => 3,
        TokenKind::ColorLit(..) => 4,
        TokenKind::DurationLit(..) => 5,
        TokenKind::ScriptBody => 6,
        TokenKind::If => 7,
        TokenKind::Elseif => 8,
        TokenKind::Else => 9,
        TokenKind::For => 10,
        TokenKind::While => 11,
        TokenKind::Do => 12,
        TokenKind::End => 13,
        TokenKind::Return => 14,
        TokenKind::Local => 15,
        TokenKind::Fn => 16,
        TokenKind::Script => 17,
        TokenKind::Include => 18,
        TokenKind::And => 19,
        TokenKind::Or => 20,
        TokenKind::Not => 21,
        TokenKind::True => 22,
        TokenKind::False => 23,
        TokenKind::Nil => 24,
        TokenKind::LBrace => 25,
        TokenKind::RBrace => 26,
        TokenKind::LBracket => 27,
        TokenKind::RBracket => 28,
        TokenKind::LParen => 29,
        TokenKind::RParen => 30,
        TokenKind::Comma => 31,
        TokenKind::Eq => 32,
        TokenKind::Dot => 33,
        TokenKind::At => 34,
        TokenKind::Plus => 35,
        TokenKind::Minus => 36,
        TokenKind::Star => 37,
        TokenKind::Slash => 38,
        TokenKind::Percent => 39,
        TokenKind::DotDot => 40,
        TokenKind::EqEq => 41,
        TokenKind::NotEq => 42,
        TokenKind::Lt => 43,
        TokenKind::Gt => 44,
        TokenKind::LtEq => 45,
        TokenKind::GtEq => 46,
        TokenKind::Comment(..) => 47,
        TokenKind::Eof => 48,
    }
}


/// A keyword reads back as the token whose lexeme it is.
pub proof fn lemma_keywords_are_their_lexemes(w: Seq<char>)
    ensures
        keyword_of(w) matches Some(k) ==> fixed_text(k) == Some(w),
{
}

} // verus!
