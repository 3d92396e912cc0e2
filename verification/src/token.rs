//! Tokens of the three-address-code language.

use vstd::prelude::*;

verus! {

/// The kind of a token.
#[derive(Clone, Copy, Debug, PartialEq, Eq, Structural)]
pub enum TokenKind {
    // Single-character tokens.
    LeftParen,
    RightParen,
    LeftBrace,
    RightBrace,
    LeftBracket,
    RightBracket,
    Comma,
    Colon,
    Dot,
    Minus,
    Plus,
    Semicolon,
    Slash,
    Star,
    Ampersand,
    Percent,
    NewLine,
    // One or two character tokens.
    Bang,
    BangEqual,
    Equal,
    EqualEqual,
    Greater,
    GreaterEqual,
    Less,
    LessEqual,
    ShiftLeft,
    ShiftRight,
    // Literals.
    Identifier,
    String,
    Number,
    Char,
    // Keywords.
    If,
    IfFalse,
    Goto,
    Param,
    Call,
    Return,
    True,
    False,
    Print,
    PrintLn,
    Scan,
    Halt,
    U64KW,
    I64KW,
    F64KW,
    CharKW,
    BoolKW,
    // Special.
    Error,
    Eof,
}

impl TokenKind {
    /// The name of the kind, as diagnostics write it.
    pub open spec fn name_spec(self) -> Seq<char> {
        match self {
            TokenKind::LeftParen => "LeftParen"@,
            TokenKind::RightParen => "RightParen"@,
            TokenKind::LeftBrace => "LeftBrace"@,
            TokenKind::RightBrace => "RightBrace"@,
            TokenKind::LeftBracket => "LeftBracket"@,
            TokenKind::RightBracket => "RightBracket"@,
            TokenKind::Comma => "Comma"@,
            TokenKind::Colon => "Colon"@,
            TokenKind::Dot => "Dot"@,
            TokenKind::Minus => "Minus"@,
            TokenKind::Plus => "Plus"@,
            TokenKind::Semicolon => "Semicolon"@,
            TokenKind::Slash => "Slash"@,
            TokenKind::Star => "Star"@,
            TokenKind::Ampersand => "Ampersand"@,
            TokenKind::Percent => "Percent"@,
            TokenKind::NewLine => "NewLine"@,
            TokenKind::Bang => "Bang"@,
            TokenKind::BangEqual => "BangEqual"@,
            TokenKind::Equal => "Equal"@,
            TokenKind::EqualEqual => "EqualEqual"@,
            TokenKind::Greater => "Greater"@,
            TokenKind::GreaterEqual => "GreaterEqual"@,
            TokenKind::Less => "Less"@,
            TokenKind::LessEqual => "LessEqual"@,
            TokenKind::ShiftLeft => "ShiftLeft"@,
            TokenKind::ShiftRight => "ShiftRight"@,
            TokenKind::Identifier => "Identifier"@,
            TokenKind::String => "String"@,
            TokenKind::Number => "Number"@,
            TokenKind::Char => "Char"@,
            TokenKind::If => "If"@,
            TokenKind::IfFalse => "IfFalse"@,
            TokenKind::Goto => "Goto"@,
            TokenKind::Param => "Param"@,
            TokenKind::Call => "Call"@,
            TokenKind::Return => "Return"@,
            TokenKind::True => "True"@,
            TokenKind::False => "False"@,
            TokenKind::Print => "Print"@,
            TokenKind::PrintLn => "PrintLn"@,
            TokenKind::Scan => "Scan"@,
            TokenKind::Halt => "Halt"@,
            TokenKind::U64KW => "U64KW"@,
            TokenKind::I64KW => "I64KW"@,
            TokenKind::F64KW => "F64KW"@,
            TokenKind::CharKW => "CharKW"@,
            TokenKind::BoolKW => "BoolKW"@,
            TokenKind::Error => "Error"@,
            TokenKind::Eof => "Eof"@,
        }
    }

    pub fn name(self) -> (name: &'static str)
        ensures
            name@ == self.name_spec(),
    {
        match self {
            TokenKind::LeftParen => "LeftParen",
            TokenKind::RightParen => "RightParen",
            TokenKind::LeftBrace => "LeftBrace",
            TokenKind::RightBrace => "RightBrace",
            TokenKind::LeftBracket => "LeftBracket",
            TokenKind::RightBracket => "RightBracket",
            TokenKind::Comma => "Comma",
            TokenKind::Colon => "Colon",
            TokenKind::Dot => "Dot",
            TokenKind::Minus => "Minus",
            TokenKind::Plus => "Plus",
            TokenKind::Semicolon => "Semicolon",
            TokenKind::Slash => "Slash",
            TokenKind::Star => "Star",
            TokenKind::Ampersand => "Ampersand",
            TokenKind::Percent => "Percent",
            TokenKind::NewLine => "NewLine",
            TokenKind::Bang => "Bang",
            TokenKind::BangEqual => "BangEqual",
            TokenKind::Equal => "Equal",
            TokenKind::EqualEqual => "EqualEqual",
            TokenKind::Greater => "Greater",
            TokenKind::GreaterEqual => "GreaterEqual",
            TokenKind::Less => "Less",
            TokenKind::LessEqual => "LessEqual",
            TokenKind::ShiftLeft => "ShiftLeft",
            TokenKind::ShiftRight => "ShiftRight",
            TokenKind::Identifier => "Identifier",
            TokenKind::String => "String",
            TokenKind::Number => "Number",
            TokenKind::Char => "Char",
            TokenKind::If => "If",
            TokenKind::IfFalse => "IfFalse",
            TokenKind::Goto => "Goto",
            TokenKind::Param => "Param",
            TokenKind::Call => "Call",
            TokenKind::Return => "Return",
            TokenKind::True => "True",
            TokenKind::False => "False",
            TokenKind::Print => "Print",
            TokenKind::PrintLn => "PrintLn",
            TokenKind::Scan => "Scan",
            TokenKind::Halt => "Halt",
            TokenKind::U64KW => "U64KW",
            TokenKind::I64KW => "I64KW",
            TokenKind::F64KW => "F64KW",
            TokenKind::CharKW => "CharKW",
            TokenKind::BoolKW => "BoolKW",
            TokenKind::Error => "Error",
            TokenKind::Eof => "Eof",
        }
    }
}

/// A token: its kind, its text and the line it was read on.
///
/// For every kind but `Error` the lexeme is a slice of the source; for
/// `Error` it is the message that says what went wrong.
#[derive(Clone, Copy, Debug, PartialEq)]
pub struct Token<'source> {
    pub kind: TokenKind,
    pub lexeme: &'source str,
    pub line: usize,
}

/// What a token is in contracts.
pub struct TokenModel {
    pub kind: TokenKind,
    pub lexeme: Seq<char>,
    pub line: usize,
}

impl<'source> View for Token<'source> {
    type V = TokenModel;

    open spec fn view(&self) -> TokenModel {
        TokenModel { kind: self.kind, lexeme: self.lexeme@, line: self.line }
    }
}

impl<'source> Token<'source> {
    /// A token that stands for no place in any source: kind `Error`, line 0.
    pub fn synthetic(text: &'source str) -> (token: Token<'source>)
        ensures
            token@ == (TokenModel { kind: TokenKind::Error, lexeme: text@, line: 0 }),
    {
        Token { kind: TokenKind::Error, lexeme: text, line: 0 }
    }
}

} // verus!
