use vstd::prelude::*;
use crate::ast::Span;
use crate::interner::Symbol;

verus! {

/// The kinds of tokens.  A float literal is held as the bits of its IEEE 754
/// double; an error token carries the lexer's message.
#[derive(Debug)]
pub enum TokenKind {
    Identifier(Symbol),
    Integer(i64),
    Float(u64),
    StringPart(Symbol),
    Error(String),
    LeftParen,
    RightParen,
    LeftBrace,
    RightBrace,
    LeftBracket,
    RightBracket,
    Comma,
    Dot,
    DotDot,
    Colon,
    ColonEqual,
    Semicolon,
    Question,
    QuestionDot,
    QuestionQuestion,
    QuestionQuestionEqual,
    Bang,
    BangEqual,
    Equal,
    EqualEqual,
    FatArrow,
    Arrow,
    Greater,
    GreaterEqual,
    GreaterGreater,
    GreaterGreaterEqual,
    Less,
    LessEqual,
    LessLessEqual,
    Plus,
    PlusEqual,
    Minus,
    MinusEqual,
    Star,
    StarEqual,
    Slash,
    SlashEqual,
    Percent,
    PercentEqual,
    PipeEqual,
    CaretEqual,
    AmpersandEqual,
    Underscore,
    StringStart,
    StringEnd,
    InterpolationStart,
    InterpolationEnd,
    Private,
    Public,
    Interface,
    Class,
    Struct,
    Enum,
    Extend,
    Actor,
    Async,
    Await,
    Spawn,
    Func,
    Init,
    Let,
    Var,
    Weak,
    Final,
    Static,
    Foreign,
    Import,
    Export,
    Type,
    As,
    Show,
    Hide,
    Implements,
    If,
    Else,
    While,
    For,
    Return,
    Match,
    True,
    False,
    Null,
    SelfKeyword,
    Eof,
}

/// The mathematical value of a token kind.
pub enum TokenKindV {
    Identifier(Symbol),
    Integer(i64),
    Float(u64),
    StringPart(Symbol),
    Error(Seq<char>),
    LeftParen,
    RightParen,
    LeftBrace,
    RightBrace,
    LeftBracket,
    RightBracket,
    Comma,
    Dot,
    DotDot,
    Colon,
    ColonEqual,
    Semicolon,
    Question,
    QuestionDot,
    QuestionQuestion,
    QuestionQuestionEqual,
    Bang,
    BangEqual,
    Equal,
    EqualEqual,
    FatArrow,
    Arrow,
    Greater,
    GreaterEqual,
    GreaterGreater,
    GreaterGreaterEqual,
    Less,
    LessEqual,
    LessLessEqual,
    Plus,
    PlusEqual,
    Minus,
    MinusEqual,
    Star,
    StarEqual,
    Slash,
    SlashEqual,
    Percent,
    PercentEqual,
    PipeEqual,
    CaretEqual,
    AmpersandEqual,
    Underscore,
    StringStart,
    StringEnd,
    InterpolationStart,
    InterpolationEnd,
    Private,
    Public,
    Interface,
    Class,
    Struct,
    Enum,
    Extend,
    Actor,
    Async,
    Await,
    Spawn,
    Func,
    Init,
    Let,
    Var,
    Weak,
    Final,
    Static,
    Foreign,
    Import,
    Export,
    Type,
    As,
    Show,
    Hide,
    Implements,
    If,
    Else,
    While,
    For,
    Return,
    Match,
    True,
    False,
    Null,
    SelfKeyword,
    Eof,
}

impl View for TokenKind {
    type V = TokenKindV;

    open spec fn view(&self) -> TokenKindV {
        match self {
            TokenKind::Identifier(x) => TokenKindV::Identifier(*x),
            TokenKind::Integer(x) => TokenKindV::Integer(*x),
            TokenKind::Float(x) => TokenKindV::Float(*x),
            TokenKind::StringPart(x) => TokenKindV::StringPart(*x),
            TokenKind::Error(x) => TokenKindV::Error(x@),
            TokenKind::LeftParen => TokenKindV::LeftParen,
            TokenKind::RightParen => TokenKindV::RightParen,
            TokenKind::LeftBrace => TokenKindV::LeftBrace,
            TokenKind::RightBrace => TokenKindV::RightBrace,
            TokenKind::LeftBracket => TokenKindV::LeftBracket,
            TokenKind::RightBracket => TokenKindV::RightBracket,
            TokenKind::Comma => TokenKindV::Comma,
            TokenKind::Dot => TokenKindV::Dot,
            TokenKind::DotDot => TokenKindV::DotDot,
            TokenKind::Colon => TokenKindV::Colon,
            TokenKind::ColonEqual => TokenKindV::ColonEqual,
            TokenKind::Semicolon => TokenKindV::Semicolon,
            TokenKind::Question => TokenKindV::Question,
            TokenKind::QuestionDot => TokenKindV::QuestionDot,
            TokenKind::QuestionQuestion => TokenKindV::QuestionQuestion,
            TokenKind::QuestionQuestionEqual => TokenKindV::QuestionQuestionEqual,
            TokenKind::Bang => TokenKindV::Bang,
            TokenKind::BangEqual => TokenKindV::BangEqual,
            TokenKind::Equal => TokenKindV::Equal,
            TokenKind::EqualEqual => TokenKindV::EqualEqual,
            TokenKind::FatArrow => TokenKindV::FatArrow,
            TokenKind::Arrow => TokenKindV::Arrow,
            TokenKind::Greater => TokenKindV::Greater,
            TokenKind::GreaterEqual => TokenKindV::GreaterEqual,
            TokenKind::GreaterGreater => TokenKindV::GreaterGreater,
            TokenKind::GreaterGreaterEqual => TokenKindV::GreaterGreaterEqual,
            TokenKind::Less => TokenKindV::Less,
            TokenKind::LessEqual => TokenKindV::LessEqual,
            TokenKind::LessLessEqual => TokenKindV::LessLessEqual,
            TokenKind::Plus => TokenKindV::Plus,
            TokenKind::PlusEqual => TokenKindV::PlusEqual,
            TokenKind::Minus => TokenKindV::Minus,
            TokenKind::MinusEqual => TokenKindV::MinusEqual,
            TokenKind::Star => TokenKindV::Star,
            TokenKind::StarEqual => TokenKindV::StarEqual,
            TokenKind::Slash => TokenKindV::Slash,
            TokenKind::SlashEqual => TokenKindV::SlashEqual,
            TokenKind::Percent => TokenKindV::Percent,
            TokenKind::PercentEqual => TokenKindV::PercentEqual,
            TokenKind::PipeEqual => TokenKindV::PipeEqual,
            TokenKind::CaretEqual => TokenKindV::CaretEqual,
            TokenKind::AmpersandEqual => TokenKindV::AmpersandEqual,
            TokenKind::Underscore => TokenKindV::Underscore,
            TokenKind::StringStart => TokenKindV::StringStart,
            TokenKind::StringEnd => TokenKindV::StringEnd,
            TokenKind::InterpolationStart => TokenKindV::InterpolationStart,
            TokenKind::InterpolationEnd => TokenKindV::InterpolationEnd,
            TokenKind::Private => TokenKindV::Private,
            TokenKind::Public => TokenKindV::Public,
            TokenKind::Interface => TokenKindV::Interface,
            TokenKind::Class => TokenKindV::Class,
            TokenKind::Struct => TokenKindV::Struct,
            TokenKind::Enum => TokenKindV::Enum,
            TokenKind::Extend => TokenKindV::Extend,
            TokenKind::Actor => TokenKindV::Actor,
            TokenKind::Async => TokenKindV::Async,
            TokenKind::Await => TokenKindV::Await,
            TokenKind::Spawn => TokenKindV::Spawn,
            TokenKind::Func => TokenKindV::Func,
            TokenKind::Init => TokenKindV::Init,
            TokenKind::Let => TokenKindV::Let,
            TokenKind::Var => TokenKindV::Var,
            TokenKind::Weak => TokenKindV::Weak,
            TokenKind::Final => TokenKindV::Final,
            TokenKind::Static => TokenKindV::Static,
            TokenKind::Foreign => TokenKindV::Foreign,
            TokenKind::Import => TokenKindV::Import,
            TokenKind::Export => TokenKindV::Export,
            TokenKind::Type => TokenKindV::Type,
            TokenKind::As => TokenKindV::As,
            TokenKind::Show => TokenKindV::Show,
            TokenKind::Hide => TokenKindV::Hide,
            TokenKind::Implements => TokenKindV::Implements,
            TokenKind::If => TokenKindV::If,
            TokenKind::Else => TokenKindV::Else,
            TokenKind::While => TokenKindV::While,
            TokenKind::For => TokenKindV::For,
            TokenKind::Return => TokenKindV::Return,
            TokenKind::Match => TokenKindV::Match,
            TokenKind::True => TokenKindV::True,
            TokenKind::False => TokenKindV::False,
            TokenKind::Null => TokenKindV::Null,
            TokenKind::SelfKeyword => TokenKindV::SelfKeyword,
            TokenKind::Eof => TokenKindV::Eof,
        }
    }
}

impl TokenKind {
    /// Equality of token kinds, payloads included.
    pub fn same_as(&self, other: &TokenKind) -> (r: bool)
        ensures
            r == (self@ == other@),
    {
        match self {
            TokenKind::Identifier(a) => match other { TokenKind::Identifier(b) => *a == *b, _ => false },
            TokenKind::Integer(a) => match other { TokenKind::Integer(b) => *a == *b, _ => false },
            TokenKind::Float(a) => match other { TokenKind::Float(b) => *a == *b, _ => false },
            TokenKind::StringPart(a) => match other { TokenKind::StringPart(b) => *a == *b, _ => false },
            TokenKind::Error(a) => match other { TokenKind::Error(b) => *a == *b, _ => false },
            TokenKind::LeftParen => match other { TokenKind::LeftParen => true, _ => false },
            TokenKind::RightParen => match other { TokenKind::RightParen => true, _ => false },
            TokenKind::LeftBrace => match other { TokenKind::LeftBrace => true, _ => false },
            TokenKind::RightBrace => match other { TokenKind::RightBrace => true, _ => false },
            TokenKind::LeftBracket => match other { TokenKind::LeftBracket => true, _ => false },
            TokenKind::RightBracket => match other { TokenKind::RightBracket => true, _ => false },
            TokenKind::Comma => match other { TokenKind::Comma => true, _ => false },
            TokenKind::Dot => match other { TokenKind::Dot => true, _ => false },
            TokenKind::DotDot => match other { TokenKind::DotDot => true, _ => false },
            TokenKind::Colon => match other { TokenKind::Colon => true, _ => false },
            TokenKind::ColonEqual => match other { TokenKind::ColonEqual => true, _ => false },
            TokenKind::Semicolon => match other { TokenKind::Semicolon => true, _ => false },
            TokenKind::Question => match other { TokenKind::Question => true, _ => false },
            TokenKind::QuestionDot => match other { TokenKind::QuestionDot => true, _ => false },
            TokenKind::QuestionQuestion => match other { TokenKind::QuestionQuestion => true, _ => false },
            TokenKind::QuestionQuestionEqual => match other { TokenKind::QuestionQuestionEqual => true, _ => false },
            TokenKind::Bang => match other { TokenKind::Bang => true, _ => false },
            TokenKind::BangEqual => match other { TokenKind::BangEqual => true, _ => false },
            TokenKind::Equal => match other { TokenKind::Equal => true, _ => false },
            TokenKind::EqualEqual => match other { TokenKind::EqualEqual => true, _ => false },
            TokenKind::FatArrow => match other { TokenKind::FatArrow => true, _ => false },
            TokenKind::Arrow => match other { TokenKind::Arrow => true, _ => false },
            TokenKind::Greater => match other { TokenKind::Greater => true, _ => false },
            TokenKind::GreaterEqual => match other { TokenKind::GreaterEqual => true, _ => false },
            TokenKind::GreaterGreater => match other { TokenKind::GreaterGreater => true, _ => false },
            TokenKind::GreaterGreaterEqual => match other { TokenKind::GreaterGreaterEqual => true, _ => false },
            TokenKind::Less => match other { TokenKind::Less => true, _ => false },
            TokenKind::LessEqual => match other { TokenKind::LessEqual => true, _ => false },
            TokenKind::LessLessEqual => match other { TokenKind::LessLessEqual => true, _ => false },
            TokenKind::Plus => match other { TokenKind::Plus => true, _ => false },
            TokenKind::PlusEqual => match other { TokenKind::PlusEqual => true, _ => false },
            TokenKind::Minus => match other { TokenKind::Minus => true, _ => false },
            TokenKind::MinusEqual => match other { TokenKind::MinusEqual => true, _ => false },
            TokenKind::Star => match other { TokenKind::Star => true, _ => false },
            TokenKind::StarEqual => match other { TokenKind::StarEqual => true, _ => false },
            TokenKind::Slash => match other { TokenKind::Slash => true, _ => false },
            TokenKind::SlashEqual => match other { TokenKind::SlashEqual => true, _ => false },
            TokenKind::Percent => match other { TokenKind::Percent => true, _ => false },
            TokenKind::PercentEqual => match other { TokenKind::PercentEqual => true, _ => false },
            TokenKind::PipeEqual => match other { TokenKind::PipeEqual => true, _ => false },
            TokenKind::CaretEqual => match other { TokenKind::CaretEqual => true, _ => false },
            TokenKind::AmpersandEqual => match other { TokenKind::AmpersandEqual => true, _ => false },
            TokenKind::Underscore => match other { TokenKind::Underscore => true, _ => false },
            TokenKind::StringStart => match other { TokenKind::StringStart => true, _ => false },
            TokenKind::StringEnd => match other { TokenKind::StringEnd => true, _ => false },
            TokenKind::InterpolationStart => match other { TokenKind::InterpolationStart => true, _ => false },
            TokenKind::InterpolationEnd => match other { TokenKind::InterpolationEnd => true, _ => false },
            TokenKind::Private => match other { TokenKind::Private => true, _ => false },
            TokenKind::Public => match other { TokenKind::Public => true, _ => false },
            TokenKind::Interface => match other { TokenKind::Interface => true, _ => false },
            TokenKind::Class => match other { TokenKind::Class => true, _ => false },
            TokenKind::Struct => match other { TokenKind::Struct => true, _ => false },
            TokenKind::Enum => match other { TokenKind::Enum => true, _ => false },
            TokenKind::Extend => match other { TokenKind::Extend => true, _ => false },
            TokenKind::Actor => match other { TokenKind::Actor => true, _ => false },
            TokenKind::Async => match other { TokenKind::Async => true, _ => false },
            TokenKind::Await => match other { TokenKind::Await => true, _ => false },
            TokenKind::Spawn => match other { TokenKind::Spawn => true, _ => false },
            TokenKind::Func => match other { TokenKind::Func => true, _ => false },
            TokenKind::Init => match other { TokenKind::Init => true, _ => false },
            TokenKind::Let => match other { TokenKind::Let => true, _ => false },
            TokenKind::Var => match other { TokenKind::Var => true, _ => false },
            TokenKind::Weak => match other { TokenKind::Weak => true, _ => false },
            TokenKind::Final => match other { TokenKind::Final => true, _ => false },
            TokenKind::Static => match other { TokenKind::Static => true, _ => false },
            TokenKind::Foreign => match other { TokenKind::Foreign => true, _ => false },
            TokenKind::Import => match other { TokenKind::Import => true, _ => false },
            TokenKind::Export => match other { TokenKind::Export => true, _ => false },
            TokenKind::Type => match other { TokenKind::Type => true, _ => false },
            TokenKind::As => match other { TokenKind::As => true, _ => false },
            TokenKind::Show => match other { TokenKind::Show => true, _ => false },
            TokenKind::Hide => match other { TokenKind::Hide => true, _ => false },
            TokenKind::Implements => match other { TokenKind::Implements => true, _ => false },
            TokenKind::If => match other { TokenKind::If => true, _ => false },
            TokenKind::Else => match other { TokenKind::Else => true, _ => false },
            TokenKind::While => match other { TokenKind::While => true, _ => false },
            TokenKind::For => match other { TokenKind::For => true, _ => false },
            TokenKind::Return => match other { TokenKind::Return => true, _ => false },
            TokenKind::Match => match other { TokenKind::Match => true, _ => false },
            TokenKind::True => match other { TokenKind::True => true, _ => false },
            TokenKind::False => match other { TokenKind::False => true, _ => false },
            TokenKind::Null => match other { TokenKind::Null => true, _ => false },
            TokenKind::SelfKeyword => match other { TokenKind::SelfKeyword => true, _ => false },
            TokenKind::Eof => match other { TokenKind::Eof => true, _ => false },
        }
    }
}

/// A token with its place in the source.
#[derive(Debug)]
pub struct Token {
    pub kind: TokenKind,
    pub span: Span,
}

impl Token {
    pub fn new(kind: TokenKind, span: Span) -> (res: Self)
        ensures
            res.kind@ == kind@,
            res.span == span,
    {
        Token { kind, span }
    }
}

} // verus!
