use vstd::prelude::*;

verus! {

/// Lexical unit classes of the line-oriented tokenizer.
#[derive(Debug, Clone, Copy, PartialEq, Eq, Structural)]
pub enum LexUnit {
    NewLine,
    Comment,
    Ident,
    Number,

    // Keywords
    Def,
    Else,
    Extern,
    For,
    If,
    Then,

    // Operators
    Assign,
    Eq,
    Ne,
    Gt,
    Ge,
    Lt,
    Le,
    Add,
    Sub,
    Mul,
    Div,
    Mod,

    // Punctuation
    OpenParen,
    CloseParen,
    Semicolon,
}

impl LexUnit {
    /// Keyword units.
    pub open spec fn spec_is_keyword(self) -> bool {
        self == LexUnit::Def || self == LexUnit::Else || self == LexUnit::Extern
            || self == LexUnit::For || self == LexUnit::If || self == LexUnit::Then
    }

    /// Whether this unit is a keyword.
    pub fn is_keyword(&self) -> (r: bool)
        ensures
            r == self.spec_is_keyword(),
    {
        matches!(
            self,
            LexUnit::Def | LexUnit::Else | LexUnit::Extern | LexUnit::For | LexUnit::If
                | LexUnit::Then
        )
    }

    /// Operator units.
    pub open spec fn spec_is_operator(self) -> bool {
        self == LexUnit::Assign || self == LexUnit::Eq || self == LexUnit::Ne || self
            == LexUnit::Gt || self == LexUnit::Ge || self == LexUnit::Lt || self == LexUnit::Le
            || self == LexUnit::Add || self == LexUnit::Sub || self == LexUnit::Mul || self
            == LexUnit::Div || self == LexUnit::Mod
    }

    /// Whether this unit is an operator.
    pub fn is_operator(&self) -> (r: bool)
        ensures
            r == self.spec_is_operator(),
    {
        matches!(
            self,
            LexUnit::Assign | LexUnit::Eq | LexUnit::Ne | LexUnit::Gt | LexUnit::Ge | LexUnit::Lt
                | LexUnit::Le | LexUnit::Add | LexUnit::Sub | LexUnit::Mul | LexUnit::Div
                | LexUnit::Mod
        )
    }

    /// Punctuation units.
    pub open spec fn spec_is_punctuation(self) -> bool {
        self == LexUnit::OpenParen || self == LexUnit::CloseParen || self == LexUnit::Semicolon
    }

    /// Whether this unit is punctuation.
    pub fn is_punctuation(&self) -> (r: bool)
        ensures
            r == self.spec_is_punctuation(),
    {
        matches!(self, LexUnit::OpenParen | LexUnit::CloseParen | LexUnit::Semicolon)
    }
}

/// Keywords of the line-oriented tokenizer.
#[derive(Debug, Clone, Copy, PartialEq, Eq, Structural)]
pub enum Keyword {
    Def,
    Else,
    Extern,
    For,
    If,
    Then,
}

impl Keyword {
    /// The source text of this keyword.
    pub fn as_str(&self) -> (r: &'static str)
        ensures
            r@ == match self {
                Keyword::Def => "def"@,
                Keyword::Else => "else"@,
                Keyword::Extern => "extern"@,
                Keyword::For => "for"@,
                Keyword::If => "if"@,
                Keyword::Then => "then"@,
            },
    {
        match self {
            Keyword::Def => "def",
            Keyword::Else => "else",
            Keyword::Extern => "extern",
            Keyword::For => "for",
            Keyword::If => "if",
            Keyword::Then => "then",
        }
    }
}

/// Operators of the line-oriented tokenizer.
#[derive(Debug, Clone, Copy, PartialEq, Eq, Structural)]
pub enum Operator {
    Assign,
    Eq,
    Ne,
    Gt,
    Ge,
    Lt,
    Le,
    Add,
    Sub,
    Mul,
    Div,
    Mod,
}

impl Operator {
    /// The source text of this operator.
    pub fn as_str(&self) -> (r: &'static str)
        ensures
            r@ == match self {
                Operator::Assign => "="@,
                Operator::Eq => "=="@,
                Operator::Ne => "!="@,
                Operator::Gt => ">"@,
                Operator::Ge => ">="@,
                Operator::Lt => "<"@,
                Operator::Le => "<="@,
                Operator::Add => "+"@,
                Operator::Sub => "-"@,
                Operator::Mul => "*"@,
                Operator::Div => "/"@,
                Operator::Mod => "%"@,
            },
    {
        match self {
            Operator::Assign => "=",
            Operator::Eq => "==",
            Operator::Ne => "!=",
            Operator::Gt => ">",
            Operator::Ge => ">=",
            Operator::Lt => "<",
            Operator::Le => "<=",
            Operator::Add => "+",
            Operator::Sub => "-",
            Operator::Mul => "*",
            Operator::Div => "/",
            Operator::Mod => "%",
        }
    }
}

/// Punctuation of the line-oriented tokenizer.
#[derive(Debug, Clone, Copy, PartialEq, Eq, Structural)]
pub enum Punctuation {
    OpenParen,
    CloseParen,
    Semicolon,
}

impl Punctuation {
    /// The source text of this punctuation mark.
    pub fn as_str(&self) -> (r: &'static str)
        ensures
            r@ == match self {
                Punctuation::OpenParen => "("@,
                Punctuation::CloseParen => ")"@,
                Punctuation::Semicolon => ";"@,
            },
    {
        match self {
            Punctuation::OpenParen => "(",
            Punctuation::CloseParen => ")",
            Punctuation::Semicolon => ";",
        }
    }
}

/// The value carried by one token of the line-oriented tokenizer.  An
/// identifier carries its text; a number carries its literal text, whose
/// numeric interpretation is the consumer's concern.
#[derive(Debug, Clone, PartialEq)]
pub enum TokenValue {
    NewLine,
    Keyword(Keyword),
    Ident(String),
    Number(String),
    Operator(Operator),
    Punctuation(Punctuation),
}

/// One token together with the byte range it covers.
#[derive(Debug, Clone, PartialEq)]
pub struct Token {
    pub val: TokenValue,
    pub loc_start: usize,
    pub loc_end: usize,
}

/// Errors of the line-oriented tokenizer.
#[derive(Debug, Clone, PartialEq, Eq, Structural)]
pub enum TokenizeError {
    UnmatchedUnit(usize, usize),
    NumberParseError(usize, usize),
}

impl TokenizeError {
    /// The byte range at which tokenizing failed.
    pub fn location(&self) -> (r: (usize, usize))
        ensures
            r == match self {
                TokenizeError::UnmatchedUnit(a, b) => (*a, *b),
                TokenizeError::NumberParseError(a, b) => (*a, *b),
            },
    {
        match self {
            TokenizeError::UnmatchedUnit(a, b) => (*a, *b),
            TokenizeError::NumberParseError(a, b) => (*a, *b),
        }
    }
}

} // verus!
