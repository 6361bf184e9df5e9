//! Tokens and their positions.
use vstd::prelude::*;

verus! {

/// A token of the language. Literals carry their text or value, every
/// recognised symbol and reserved word has a variant of its own.
#[derive(Debug, Clone, PartialEq, Eq)]
pub enum Token {
    Identifier(String),
    Number(i32),
    Symbol(String),
    StringLiteral(String),
    CharLiteral(char),
    RBrace,
    LBrace,
    Semicolon,
    Colon,
    Equals,
    EqualEqual,
    NotEquals,
    DoubleColon,
    LessEqual,
    GreaterEqual,
    LeftParen,
    RightParen,
    Minus,
    Not,
    Plus,
    Slash,
    Star,
    Question,
    Percent,
    LBracket,
    RBracket,
    Power,
    Arrow,
    ReverseArrow,
    ChainNot,
    ChainBack,
    Less,
    Greater,
    Unknown,
    Let,
    Op,
    If,
    ElseIf,
    Else,
    While,
    For,
    Loop,
    Success,
    IntType(String),
    String,
    Char,
    FloatType(String),
    Bool,
    True,
    False,
    Break,
    Continue,
    Nret,
    Data,
    And,
    Or,
}

/// What a [`Token`] is in contracts: the same variants, with text as a
/// sequence of characters.
pub enum TokenView {
    Identifier(Seq<char>),
    Number(i32),
    Symbol(Seq<char>),
    StringLiteral(Seq<char>),
    CharLiteral(char),
    RBrace,
    LBrace,
    Semicolon,
    Colon,
    Equals,
    EqualEqual,
    NotEquals,
    DoubleColon,
    LessEqual,
    GreaterEqual,
    LeftParen,
    RightParen,
    Minus,
    Not,
    Plus,
    Slash,
    Star,
    Question,
    Percent,
    LBracket,
    RBracket,
    Power,
    Arrow,
    ReverseArrow,
    ChainNot,
    ChainBack,
    Less,
    Greater,
    Unknown,
    Let,
    Op,
    If,
    ElseIf,
    Else,
    While,
    For,
    Loop,
    Success,
    IntType(Seq<char>),
    String,
    Char,
    FloatType(Seq<char>),
    Bool,
    True,
    False,
    Break,
    Continue,
    Nret,
    Data,
    And,
    Or,
}

impl View for Token {
    type V = TokenView;

    open spec fn view(&self) -> TokenView {
        match self {
            Token::Identifier(text) => TokenView::Identifier(text@),
            Token::Number(value) => TokenView::Number(*value),
            Token::Symbol(text) => TokenView::Symbol(text@),
            Token::StringLiteral(text) => TokenView::StringLiteral(text@),
            Token::CharLiteral(value) => TokenView::CharLiteral(*value),
            Token::RBrace => TokenView::RBrace,
            Token::LBrace => TokenView::LBrace,
            Token::Semicolon => TokenView::Semicolon,
            Token::Colon => TokenView::Colon,
            Token::Equals => TokenView::Equals,
            Token::EqualEqual => TokenView::EqualEqual,
            Token::NotEquals => TokenView::NotEquals,
            Token::DoubleColon => TokenView::DoubleColon,
            Token::LessEqual => TokenView::LessEqual,
            Token::GreaterEqual => TokenView::GreaterEqual,
            Token::LeftParen => TokenView::LeftParen,
            Token::RightParen => TokenView::RightParen,
            Token::Minus => TokenView::Minus,
            Token::Not => TokenView::Not,
            Token::Plus => TokenView::Plus,
            Token::Slash => TokenView::Slash,
            Token::Star => TokenView::Star,
            Token::Question => TokenView::Question,
            Token::Percent => TokenView::Percent,
            Token::LBracket => TokenView::LBracket,
            Token::RBracket => TokenView::RBracket,
            Token::Power => TokenView::Power,
            Token::Arrow => TokenView::Arrow,
            Token::ReverseArrow => TokenView::ReverseArrow,
            Token::ChainNot => TokenView::ChainNot,
            Token::ChainBack => TokenView::ChainBack,
            Token::Less => TokenView::Less,
            Token::Greater => TokenView::Greater,
            Token::Unknown => TokenView::Unknown,
            Token::Let => TokenView::Let,
            Token::Op => TokenView::Op,
            Token::If => TokenView::If,
            Token::ElseIf => TokenView::ElseIf,
            Token::Else => TokenView::Else,
            Token::While => TokenView::While,
            Token::For => TokenView::For,
            Token::Loop => TokenView::Loop,
            Token::Success => TokenView::Success,
            Token::IntType(text) => TokenView::IntType(text@),
            Token::String => TokenView::String,
            Token::Char => TokenView::Char,
            Token::FloatType(text) => TokenView::FloatType(text@),
            Token::Bool => TokenView::Bool,
            Token::True => TokenView::True,
            Token::False => TokenView::False,
            Token::Break => TokenView::Break,
            Token::Continue => TokenView::Continue,
            Token::Nret => TokenView::Nret,
            Token::Data => TokenView::Data,
            Token::And => TokenView::And,
            Token::Or => TokenView::Or,
        }
    }
}

/// A token with the position of its first character and the number of
/// source characters it stands for.
#[derive(Debug, Clone, PartialEq, Eq)]
pub struct AnalyzedToken {
    pub token: Token,
    pub line: usize,
    pub column: usize,
    pub length: usize,
}

/// What an [`AnalyzedToken`] is in contracts.
pub struct AnalyzedTokenView {
    pub token: TokenView,
    pub line: nat,
    pub column: nat,
    pub length: nat,
}

impl View for AnalyzedToken {
    type V = AnalyzedTokenView;

    open spec fn view(&self) -> AnalyzedTokenView {
        AnalyzedTokenView {
            token: self.token@,
            line: self.line as nat,
            column: self.column as nat,
            length: self.length as nat,
        }
    }
}

/// The views of a run of tokens, in order.
pub open spec fn token_views(tokens: Seq<AnalyzedToken>) -> Seq<AnalyzedTokenView> {
    tokens.map_values(|t: AnalyzedToken| t@)
}

} // verus!
