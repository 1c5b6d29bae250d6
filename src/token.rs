use vstd::prelude::*;

verus! {

/// The kind of a lexical token, with the value it carries where it has one.
#[derive(Debug, Clone, PartialEq)]
pub enum TokenKind {
    /// `@name`: a symbolic address operand.
    Symbol(String),
    /// `@123`: a literal address operand.
    Address(u32),
    /// `(NAME)`: a label declaration.
    Label(String),
    Equal,
    Plus,
    Minus,
    Not,
    And,
    Or,
    Memory,
    DRegister,
    ARegister,
    Semicolon,
    /// A numeric literal inside a computation.
    Number(u32),
    Jump,
    JumpGreaterThan,
    JumpEqual,
    JumpGreaterThanEqual,
    JumpLessThan,
    JumpNotEqual,
    JumpLessThanEqual,
    NewLine,
    EOF,
}

/// The mathematical value of a `TokenKind`: strings are seen as character sequences.
pub enum Tok {
    Symbol(Seq<char>),
    Address(u32),
    Label(Seq<char>),
    Equal,
    Plus,
    Minus,
    Not,
    And,
    Or,
    Memory,
    DRegister,
    ARegister,
    Semicolon,
    Number(u32),
    Jump,
    JumpGreaterThan,
    JumpEqual,
    JumpGreaterThanEqual,
    JumpLessThan,
    JumpNotEqual,
    JumpLessThanEqual,
    NewLine,
    EOF,
}

impl View for TokenKind {
    type V = Tok;

    open spec fn view(&self) -> Tok {
        match self {
            TokenKind::Symbol(s) => Tok::Symbol(s@),
            TokenKind::Address(n) => Tok::Address(*n),
            TokenKind::Label(s) => Tok::Label(s@),
            TokenKind::Equal => Tok::Equal,
            TokenKind::Plus => Tok::Plus,
            TokenKind::Minus => Tok::Minus,
            TokenKind::Not => Tok::Not,
            TokenKind::And => Tok::And,
            TokenKind::Or => Tok::Or,
            TokenKind::Memory => Tok::Memory,
            TokenKind::DRegister => Tok::DRegister,
            TokenKind::ARegister => Tok::ARegister,
            TokenKind::Semicolon => Tok::Semicolon,
            TokenKind::Number(n) => Tok::Number(*n),
            TokenKind::Jump => Tok::Jump,
            TokenKind::JumpGreaterThan => Tok::JumpGreaterThan,
            TokenKind::JumpEqual => Tok::JumpEqual,
            TokenKind::JumpGreaterThanEqual => Tok::JumpGreaterThanEqual,
            TokenKind::JumpLessThan => Tok::JumpLessThan,
            TokenKind::JumpNotEqual => Tok::JumpNotEqual,
            TokenKind::JumpLessThanEqual => Tok::JumpLessThanEqual,
            TokenKind::NewLine => Tok::NewLine,
            TokenKind::EOF => Tok::EOF,
        }
    }
}

impl TokenKind {
    /// A copy of this kind, equal to it in every field.
    pub fn duplicate(&self) -> (r: TokenKind)
        ensures
            r == *self,
    {
        match self {
            TokenKind::Symbol(s) => TokenKind::Symbol(s.clone()),
            TokenKind::Address(n) => TokenKind::Address(*n),
            TokenKind::Label(s) => TokenKind::Label(s.clone()),
            TokenKind::Equal => TokenKind::Equal,
            TokenKind::Plus => TokenKind::Plus,
            TokenKind::Minus => TokenKind::Minus,
            TokenKind::Not => TokenKind::Not,
            TokenKind::And => TokenKind::And,
            TokenKind::Or => TokenKind::Or,
            TokenKind::Memory => TokenKind::Memory,
            TokenKind::DRegister => TokenKind::DRegister,
            TokenKind::ARegister => TokenKind::ARegister,
            TokenKind::Semicolon => TokenKind::Semicolon,
            TokenKind::Number(n) => TokenKind::Number(*n),
            TokenKind::Jump => TokenKind::Jump,
            TokenKind::JumpGreaterThan => TokenKind::JumpGreaterThan,
            TokenKind::JumpEqual => TokenKind::JumpEqual,
            TokenKind::JumpGreaterThanEqual => TokenKind::JumpGreaterThanEqual,
            TokenKind::JumpLessThan => TokenKind::JumpLessThan,
            TokenKind::JumpNotEqual => TokenKind::JumpNotEqual,
            TokenKind::JumpLessThanEqual => TokenKind::JumpLessThanEqual,
            TokenKind::NewLine => TokenKind::NewLine,
            TokenKind::EOF => TokenKind::EOF,
        }
    }

    /// Whether two kinds are the same, payload included.
    pub fn same_as(&self, other: &TokenKind) -> (r: bool)
        ensures
            r == (self@ == other@),
    {
        match (self, other) {
            (TokenKind::Symbol(a), TokenKind::Symbol(b)) => *a == *b,
            (TokenKind::Address(a), TokenKind::Address(b)) => *a == *b,
            (TokenKind::Label(a), TokenKind::Label(b)) => *a == *b,
            (TokenKind::Number(a), TokenKind::Number(b)) => *a == *b,
            (TokenKind::Equal, TokenKind::Equal) => true,
            (TokenKind::Plus, TokenKind::Plus) => true,
            (TokenKind::Minus, TokenKind::Minus) => true,
            (TokenKind::Not, TokenKind::Not) => true,
            (TokenKind::And, TokenKind::And) => true,
            (TokenKind::Or, TokenKind::Or) => true,
            (TokenKind::Memory, TokenKind::Memory) => true,
            (TokenKind::DRegister, TokenKind::DRegister) => true,
            (TokenKind::ARegister, TokenKind::ARegister) => true,
            (TokenKind::Semicolon, TokenKind::Semicolon) => true,
            (TokenKind::Jump, TokenKind::Jump) => true,
            (TokenKind::JumpGreaterThan, TokenKind::JumpGreaterThan) => true,
            (TokenKind::JumpEqual, TokenKind::JumpEqual) => true,
            (TokenKind::JumpGreaterThanEqual, TokenKind::JumpGreaterThanEqual) => true,
            (TokenKind::JumpLessThan, TokenKind::JumpLessThan) => true,
            (TokenKind::JumpNotEqual, TokenKind::JumpNotEqual) => true,
            (TokenKind::JumpLessThanEqual, TokenKind::JumpLessThanEqual) => true,
            (TokenKind::NewLine, TokenKind::NewLine) => true,
            (TokenKind::EOF, TokenKind::EOF) => true,
            _ => false,
        }
    }
}

/// The mathematical value of a `Token`.
pub struct TokenModel {
    pub kind: Tok,
    pub line: u32,
}

/// A token together with the 1-based source line it came from.
#[derive(Debug, Clone, PartialEq)]
pub struct Token {
    pub kind: TokenKind,
    pub line: u32,
}

impl View for Token {
    type V = TokenModel;

    open spec fn view(&self) -> TokenModel {
        TokenModel { kind: self.kind@, line: self.line }
    }
}

/// The token model of a sequence of tokens, element by element.
pub open spec fn tokens_view(ts: Seq<Token>) -> Seq<TokenModel> {
    ts.map_values(|t: Token| t@)
}

impl Token {
    pub fn new(kind: TokenKind, line: u32) -> (r: Token)
        ensures
            r.kind == kind,
            r.line == line,
    {
        Token { kind: kind, line: line }
    }

    /// A copy of this token, equal to it in every field.
    pub fn duplicate(&self) -> (r: Token)
        ensures
            r == *self,
    {
        Token { kind: self.kind.duplicate(), line: self.line }
    }
}

} // verus!
