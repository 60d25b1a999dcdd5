use vstd::prelude::*;
use crate::span::CodeSpan;

verus! {

/// The closed set of token kinds recognised by the lexer.
#[derive(Clone, Copy, Debug, PartialEq, Eq, Structural)]
pub enum TokenKind {
    UTF8BOM,
    Whitespace,
    Comment,
    Ident,
    Number,

    // Keywords
    Break,
    Continue,
    Def,
    Else,
    Extern,
    For,
    If,
    In,
    Return,
    Then,

    // Operators
    Assign,
    Eq,
    Ne,
    Gt,
    Ge,
    Lt,
    Le,
    Add,
    Sub,
    Mul,
    Div,
    And,
    Or,
    Not,

    // Punctuation
    OpenParen,
    CloseParen,
    OpenBrace,
    CloseBrace,
    Semicolon,
    Comma,
}

impl TokenKind {
    /// Keyword kinds: idents whose text is reserved.
    pub open spec fn is_keyword(self) -> bool {
        self == TokenKind::Break || self == TokenKind::Continue || self == TokenKind::Def
            || self == TokenKind::Else || self == TokenKind::Extern || self == TokenKind::For
            || self == TokenKind::If || self == TokenKind::In || self == TokenKind::Return
            || self == TokenKind::Then
    }

    /// Operator kinds.
    pub open spec fn is_operator(self) -> bool {
        self == TokenKind::Assign || self == TokenKind::Eq || self == TokenKind::Ne
            || self == TokenKind::Gt || self == TokenKind::Ge || self == TokenKind::Lt
            || self == TokenKind::Le || self == TokenKind::Add || self == TokenKind::Sub
            || self == TokenKind::Mul || self == TokenKind::Div || self == TokenKind::And
            || self == TokenKind::Or || self == TokenKind::Not
    }

    /// Punctuation kinds.
    pub open spec fn is_punctuation(self) -> bool {
        self == TokenKind::OpenParen || self == TokenKind::CloseParen
            || self == TokenKind::OpenBrace || self == TokenKind::CloseBrace
            || self == TokenKind::Semicolon || self == TokenKind::Comma
    }

    /// Kinds that carry no semantic value and are skipped between
    /// significant tokens, without loss of span information.
    pub open spec fn is_skippable(self) -> bool {
        self == TokenKind::Whitespace || self == TokenKind::Comment || self == TokenKind::UTF8BOM
    }

    /// Executable form of [`Self::is_skippable`].
    pub fn skippable(self) -> (r: bool)
        ensures
            r == self.is_skippable(),
    {
        matches!(self, TokenKind::Whitespace | TokenKind::Comment | TokenKind::UTF8BOM)
    }

    /// Name of the category a kind belongs to.
    pub open spec fn spec_kind_str(self) -> &'static str {
        match self {
            TokenKind::UTF8BOM => "UTF8BOM",
            TokenKind::Whitespace => "Whitespace",
            TokenKind::Comment => "Comment",
            TokenKind::Ident => "Ident",
            TokenKind::Number => "Number",
            _ => if self.is_keyword() {
                "Keyword"
            } else if self.is_operator() {
                "Operator"
            } else {
                "Punctuation"
            },
        }
    }

    /// Category name of this kind.
    pub fn kind_str(self) -> (r: &'static str)
        ensures
            r == self.spec_kind_str(),
    {
        match self {
            TokenKind::UTF8BOM => "UTF8BOM",
            TokenKind::Whitespace => "Whitespace",
            TokenKind::Comment => "Comment",
            TokenKind::Ident => "Ident",
            TokenKind::Number => "Number",

            TokenKind::Break
            | TokenKind::Continue
            | TokenKind::Def
            | TokenKind::Else
            | TokenKind::Extern
            | TokenKind::For
            | TokenKind::If
            | TokenKind::In
            | TokenKind::Return
            | TokenKind::Then => "Keyword",

            TokenKind::Assign
            | TokenKind::Eq
            | TokenKind::Ne
            | TokenKind::Gt
            | TokenKind::Ge
            | TokenKind::Lt
            | TokenKind::Le
            | TokenKind::Add
            | TokenKind::Sub
            | TokenKind::Mul
            | TokenKind::Div
            | TokenKind::And
            | TokenKind::Or
            | TokenKind::Not => "Operator",

            TokenKind::OpenParen
            | TokenKind::CloseParen
            | TokenKind::OpenBrace
            | TokenKind::CloseBrace
            | TokenKind::Semicolon
            | TokenKind::Comma => "Punctuation",
        }
    }

    /// The fixed source text of a kind, where it has one.
    pub open spec fn spec_value_str(self) -> Option<&'static str> {
        match self {
            TokenKind::UTF8BOM
            | TokenKind::Whitespace
            | TokenKind::Comment
            | TokenKind::Ident
            | TokenKind::Number => None,

            TokenKind::Break => Some("break"),
            TokenKind::Continue => Some("continue"),
            TokenKind::Def => Some("def"),
            TokenKind::Else => Some("else"),
            TokenKind::Extern => Some("extern"),
            TokenKind::For => Some("for"),
            TokenKind::If => Some("if"),
            TokenKind::In => Some("in"),
            TokenKind::Return => Some("return"),
            TokenKind::Then => Some("then"),

            TokenKind::Assign => Some("="),
            TokenKind::Eq => Some("=="),
            TokenKind::Ne => Some("!="),
            TokenKind::Gt => Some(">"),
            TokenKind::Ge => Some(">="),
            TokenKind::Lt => Some("<"),
            TokenKind::Le => Some("<="),
            TokenKind::Add => Some("+"),
            TokenKind::Sub => Some("-"),
            TokenKind::Mul => Some("*"),
            TokenKind::Div => Some("/"),
            TokenKind::And => Some("&&"),
            TokenKind::Or => Some("||"),
            TokenKind::Not => Some("!"),

            TokenKind::OpenParen => Some("("),
            TokenKind::CloseParen => Some(")"),
            TokenKind::OpenBrace => Some("{"),
            TokenKind::CloseBrace => Some("}"),
            TokenKind::Semicolon => Some(";"),
            TokenKind::Comma => Some(","),
        }
    }

    /// Fixed source text of this kind, `None` for kinds whose text varies.
    pub fn value_str(self) -> (r: Option<&'static str>)
        ensures
            r == self.spec_value_str(),
    {
        match self {
            TokenKind::UTF8BOM
            | TokenKind::Whitespace
            | TokenKind::Comment
            | TokenKind::Ident
            | TokenKind::Number => None,

            TokenKind::Break => Some("break"),
            TokenKind::Continue => Some("continue"),
            TokenKind::Def => Some("def"),
            TokenKind::Else => Some("else"),
            TokenKind::Extern => Some("extern"),
            TokenKind::For => Some("for"),
            TokenKind::If => Some("if"),
            TokenKind::In => Some("in"),
            TokenKind::Return => Some("return"),
            TokenKind::Then => Some("then"),

            TokenKind::Assign => Some("="),
            TokenKind::Eq => Some("=="),
            TokenKind::Ne => Some("!="),
            TokenKind::Gt => Some(">"),
            TokenKind::Ge => Some(">="),
            TokenKind::Lt => Some("<"),
            TokenKind::Le => Some("<="),
            TokenKind::Add => Some("+"),
            TokenKind::Sub => Some("-"),
            TokenKind::Mul => Some("*"),
            TokenKind::Div => Some("/"),
            TokenKind::And => Some("&&"),
            TokenKind::Or => Some("||"),
            TokenKind::Not => Some("!"),

            TokenKind::OpenParen => Some("("),
            TokenKind::CloseParen => Some(")"),
            TokenKind::OpenBrace => Some("{"),
            TokenKind::CloseBrace => Some("}"),
            TokenKind::Semicolon => Some(";"),
            TokenKind::Comma => Some(","),
        }
    }
}

/// One lexed token: a kind and the span of the text it covers.
#[derive(Clone, Copy, Debug, PartialEq, Eq, Structural)]
pub struct Token {
    pub kind: TokenKind,
    pub span: CodeSpan,
}

/// Operators as they appear in expressions.  `Sub` doubles as negation and
/// `Not` as logical negation when used as unary operators.
#[derive(Clone, Copy, Debug, PartialEq, Eq, Structural)]
pub enum Operator {
    Assign,

    // Comparison
    Eq,
    Ne,
    Gt,
    Ge,
    Lt,
    Le,

    // Arithmetic
    Add,
    Sub,
    Mul,
    Div,

    // Boolean
    And,
    Or,
    Not,
}

impl Operator {
    /// The operator denoted by an operator token kind, if any.
    pub open spec fn spec_of_token_kind(value: TokenKind) -> Result<Operator, ()> {
        match value {
            TokenKind::Assign => Ok(Operator::Assign),
            TokenKind::Eq => Ok(Operator::Eq),
            TokenKind::Ne => Ok(Operator::Ne),
            TokenKind::Gt => Ok(Operator::Gt),
            TokenKind::Ge => Ok(Operator::Ge),
            TokenKind::Lt => Ok(Operator::Lt),
            TokenKind::Le => Ok(Operator::Le),
            TokenKind::Add => Ok(Operator::Add),
            TokenKind::Sub => Ok(Operator::Sub),
            TokenKind::Mul => Ok(Operator::Mul),
            TokenKind::Div => Ok(Operator::Div),
            TokenKind::And => Ok(Operator::And),
            TokenKind::Or => Ok(Operator::Or),
            TokenKind::Not => Ok(Operator::Not),
            _ => Err(()),
        }
    }

    /// Convert an operator token kind into an `Operator`; fails on kinds
    /// that are not operators.
    pub fn try_from(value: TokenKind) -> (r: Result<Operator, ()>)
        ensures
            r == Self::spec_of_token_kind(value),
            r.is_ok() <==> value.is_operator(),
    {
        match value {
            TokenKind::Assign => Ok(Operator::Assign),
            TokenKind::Eq => Ok(Operator::Eq),
            TokenKind::Ne => Ok(Operator::Ne),
            TokenKind::Gt => Ok(Operator::Gt),
            TokenKind::Ge => Ok(Operator::Ge),
            TokenKind::Lt => Ok(Operator::Lt),
            TokenKind::Le => Ok(Operator::Le),
            TokenKind::Add => Ok(Operator::Add),
            TokenKind::Sub => Ok(Operator::Sub),
            TokenKind::Mul => Ok(Operator::Mul),
            TokenKind::Div => Ok(Operator::Div),
            TokenKind::And => Ok(Operator::And),
            TokenKind::Or => Ok(Operator::Or),
            TokenKind::Not => Ok(Operator::Not),
            _ => Err(()),
        }
    }
}

} // verus!
