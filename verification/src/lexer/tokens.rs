use crate::text::{decimal, decimal_text};
use vstd::prelude::*;
use vstd::string::StringExecFns;

verus! {

/// What a token is, with the text it carries where it carries one.
///
/// A number keeps the digits and dots it was written with: the library
/// never converts them, so that it needs no floating point of its own.
#[derive(Debug, PartialEq)]
pub enum TokenKind {
    LeftParen,
    RightParen,
    LeftBrace,
    RightBrace,
    Comma,
    Dot,
    Minus,
    Plus,
    Semicolon,
    Slash,
    Star,
    Bang,
    BangEqual,
    Equal,
    EqualEqual,
    Greater,
    GreaterEqual,
    Less,
    LessEqual,
    Identifier(String),
    String(String),
    Number(String),
    And,
    Class,
    Else,
    False,
    Fun,
    For,
    If,
    Nil,
    Or,
    Print,
    Return,
    Super,
    This,
    True,
    Var,
    While,
    Eof,
}

/// The mathematical value of a [`TokenKind`]: the same variants over
/// sequences of characters.
pub enum TokenKindView {
    LeftParen,
    RightParen,
    LeftBrace,
    RightBrace,
    Comma,
    Dot,
    Minus,
    Plus,
    Semicolon,
    Slash,
    Star,
    Bang,
    BangEqual,
    Equal,
    EqualEqual,
    Greater,
    GreaterEqual,
    Less,
    LessEqual,
    Identifier(Seq<char>),
    String(Seq<char>),
    Number(Seq<char>),
    And,
    Class,
    Else,
    False,
    Fun,
    For,
    If,
    Nil,
    Or,
    Print,
    Return,
    Super,
    This,
    True,
    Var,
    While,
    Eof,
}

impl View for TokenKind {
    type V = TokenKindView;

    open spec fn view(&self) -> TokenKindView {
        match self {
            TokenKind::LeftParen => TokenKindView::LeftParen,
            TokenKind::RightParen => TokenKindView::RightParen,
            TokenKind::LeftBrace => TokenKindView::LeftBrace,
            TokenKind::RightBrace => TokenKindView::RightBrace,
            TokenKind::Comma => TokenKindView::Comma,
            TokenKind::Dot => TokenKindView::Dot,
            TokenKind::Minus => TokenKindView::Minus,
            TokenKind::Plus => TokenKindView::Plus,
            TokenKind::Semicolon => TokenKindView::Semicolon,
            TokenKind::Slash => TokenKindView::Slash,
            TokenKind::Star => TokenKindView::Star,
            TokenKind::Bang => TokenKindView::Bang,
            TokenKind::BangEqual => TokenKindView::BangEqual,
            TokenKind::Equal => TokenKindView::Equal,
            TokenKind::EqualEqual => TokenKindView::EqualEqual,
            TokenKind::Greater => TokenKindView::Greater,
            TokenKind::GreaterEqual => TokenKindView::GreaterEqual,
            TokenKind::Less => TokenKindView::Less,
            TokenKind::LessEqual => TokenKindView::LessEqual,
            TokenKind::Identifier(name) => TokenKindView::Identifier(name@),
            TokenKind::String(text) => TokenKindView::String(text@),
            TokenKind::Number(digits) => TokenKindView::Number(digits@),
            TokenKind::And => TokenKindView::And,
            TokenKind::Class => TokenKindView::Class,
            TokenKind::Else => TokenKindView::Else,
            TokenKind::False => TokenKindView::False,
            TokenKind::Fun => TokenKindView::Fun,
            TokenKind::For => TokenKindView::For,
            TokenKind::If => TokenKindView::If,
            TokenKind::Nil => TokenKindView::Nil,
            TokenKind::Or => TokenKindView::Or,
            TokenKind::Print => TokenKindView::Print,
            TokenKind::Return => TokenKindView::Return,
            TokenKind::Super => TokenKindView::Super,
            TokenKind::This => TokenKindView::This,
            TokenKind::True => TokenKindView::True,
            TokenKind::Var => TokenKindView::Var,
            TokenKind::While => TokenKindView::While,
            TokenKind::Eof => TokenKindView::Eof,
        }
    }
}

impl TokenKindView {
    /// The fixed word by which a kind is named in diagnostics.
    pub open spec fn name(self) -> Seq<char> {
        match self {
            TokenKindView::LeftParen => "("@,
            TokenKindView::RightParen => ")"@,
            TokenKindView::LeftBrace => "{"@,
            TokenKindView::RightBrace => "}"@,
            TokenKindView::Comma => ","@,
            TokenKindView::Dot => "."@,
            TokenKindView::Minus => "-"@,
            TokenKindView::Plus => "+"@,
            TokenKindView::Semicolon => ";"@,
            TokenKindView::Slash => "/"@,
            TokenKindView::Star => "*"@,
            TokenKindView::Bang => "!"@,
            TokenKindView::BangEqual => "!="@,
            TokenKindView::Equal => "="@,
            TokenKindView::EqualEqual => "=="@,
            TokenKindView::Greater => ">"@,
            TokenKindView::GreaterEqual => ">="@,
            TokenKindView::Less => "<"@,
            TokenKindView::LessEqual => "<="@,
            TokenKindView::Identifier(_) => "identifier"@,
            TokenKindView::String(_) => "string"@,
            TokenKindView::Number(_) => "number"@,
            TokenKindView::And => "and"@,
            TokenKindView::Class => "class"@,
            TokenKindView::Else => "else"@,
            TokenKindView::False => "false"@,
            TokenKindView::Fun => "function"@,
            TokenKindView::For => "for"@,
            TokenKindView::If => "if"@,
            TokenKindView::Nil => "nil"@,
            TokenKindView::Or => "or"@,
            TokenKindView::Print => "print"@,
            TokenKindView::Return => "return"@,
            TokenKindView::Super => "super"@,
            TokenKindView::This => "this"@,
            TokenKindView::True => "true"@,
            TokenKindView::Var => "var"@,
            TokenKindView::While => "while"@,
            TokenKindView::Eof => "eof"@,
        }
    }

    /// How a kind is written in diagnostics: a kind that carries text,
    /// with the text in quotes behind its name.
    pub open spec fn text(self) -> Seq<char> {
        match self {
            TokenKindView::Identifier(name) => "identifier '"@ + name + "'"@,
            TokenKindView::Number(digits) => "number '"@ + digits + "'"@,
            TokenKindView::String(text) => "string '"@ + text + "'"@,
            _ => self.name(),
        }
    }

    /// The name that an identifier carries.
    pub open spec fn identifier(self) -> Option<Seq<char>> {
        match self {
            TokenKindView::Identifier(name) => Some(name),
            _ => None,
        }
    }

    /// Whether two kinds are the same variant, whatever text they carry.
    pub open spec fn same_variant(self, other: TokenKindView) -> bool {
        match (self, other) {
            (TokenKindView::Identifier(_), TokenKindView::Identifier(_)) => true,
            (TokenKindView::String(_), TokenKindView::String(_)) => true,
            (TokenKindView::Number(_), TokenKindView::Number(_)) => true,
            (TokenKindView::Identifier(_), _) => false,
            (TokenKindView::String(_), _) => false,
            (TokenKindView::Number(_), _) => false,
            _ => self == other,
        }
    }
}

impl Clone for TokenKind {
    fn clone(&self) -> (copy: TokenKind)
        ensures
            copy@ == self@,
    {
        match self {
            TokenKind::LeftParen => TokenKind::LeftParen,
            TokenKind::RightParen => TokenKind::RightParen,
            TokenKind::LeftBrace => TokenKind::LeftBrace,
            TokenKind::RightBrace => TokenKind::RightBrace,
            TokenKind::Comma => TokenKind::Comma,
            TokenKind::Dot => TokenKind::Dot,
            TokenKind::Minus => TokenKind::Minus,
            TokenKind::Plus => TokenKind::Plus,
            TokenKind::Semicolon => TokenKind::Semicolon,
            TokenKind::Slash => TokenKind::Slash,
            TokenKind::Star => TokenKind::Star,
            TokenKind::Bang => TokenKind::Bang,
            TokenKind::BangEqual => TokenKind::BangEqual,
            TokenKind::Equal => TokenKind::Equal,
            TokenKind::EqualEqual => TokenKind::EqualEqual,
            TokenKind::Greater => TokenKind::Greater,
            TokenKind::GreaterEqual => TokenKind::GreaterEqual,
            TokenKind::Less => TokenKind::Less,
            TokenKind::LessEqual => TokenKind::LessEqual,
            TokenKind::Identifier(name) => TokenKind::Identifier(name.clone()),
            TokenKind::String(text) => TokenKind::String(text.clone()),
            TokenKind::Number(digits) => TokenKind::Number(digits.clone()),
            TokenKind::And => TokenKind::And,
            TokenKind::Class => TokenKind::Class,
            TokenKind::Else => TokenKind::Else,
            TokenKind::False => TokenKind::False,
            TokenKind::Fun => TokenKind::Fun,
            TokenKind::For => TokenKind::For,
            TokenKind::If => TokenKind::If,
            TokenKind::Nil => TokenKind::Nil,
            TokenKind::Or => TokenKind::Or,
            TokenKind::Print => TokenKind::Print,
            TokenKind::Return => TokenKind::Return,
            TokenKind::Super => TokenKind::Super,
            TokenKind::This => TokenKind::This,
            TokenKind::True => TokenKind::True,
            TokenKind::Var => TokenKind::Var,
            TokenKind::While => TokenKind::While,
            TokenKind::Eof => TokenKind::Eof,
        }
    }
}

impl TokenKind {
    /// The fixed word by which this kind is named in diagnostics.
    pub fn name(&self) -> (word: &'static str)
        ensures
            word@ == self@.name(),
    {
        match self {
            TokenKind::LeftParen => "(",
            TokenKind::RightParen => ")",
            TokenKind::LeftBrace => "{",
            TokenKind::RightBrace => "}",
            TokenKind::Comma => ",",
            TokenKind::Dot => ".",
            TokenKind::Minus => "-",
            TokenKind::Plus => "+",
            TokenKind::Semicolon => ";",
            TokenKind::Slash => "/",
            TokenKind::Star => "*",
            TokenKind::Bang => "!",
            TokenKind::BangEqual => "!=",
            TokenKind::Equal => "=",
            TokenKind::EqualEqual => "==",
            TokenKind::Greater => ">",
            TokenKind::GreaterEqual => ">=",
            TokenKind::Less => "<",
            TokenKind::LessEqual => "<=",
            TokenKind::Identifier(_) => "identifier",
            TokenKind::String(_) => "string",
            TokenKind::Number(_) => "number",
            TokenKind::And => "and",
            TokenKind::Class => "class",
            TokenKind::Else => "else",
            TokenKind::False => "false",
            TokenKind::Fun => "function",
            TokenKind::For => "for",
            TokenKind::If => "if",
            TokenKind::Nil => "nil",
            TokenKind::Or => "or",
            TokenKind::Print => "print",
            TokenKind::Return => "return",
            TokenKind::Super => "super",
            TokenKind::This => "this",
            TokenKind::True => "true",
            TokenKind::Var => "var",
            TokenKind::While => "while",
            TokenKind::Eof => "eof",
        }
    }

    /// How this kind is written in diagnostics.
    pub fn to_text(&self) -> (text: String)
        ensures
            text@ == self@.text(),
    {
        match self {
            TokenKind::Identifier(name) => {
                let mut text = String::from_str("identifier '");
                text.append(name.as_str());
                text.append("'");
                text
            },
            TokenKind::Number(digits) => {
                let mut text = String::from_str("number '");
                text.append(digits.as_str());
                text.append("'");
                text
            },
            TokenKind::String(inner) => {
                let mut text = String::from_str("string '");
                text.append(inner.as_str());
                text.append("'");
                text
            },
            _ => String::from_str(self.name()),
        }
    }

    /// Whether `self` and `other` are the same variant, whatever text
    /// they carry.
    pub fn same_variant(&self, other: &TokenKind) -> (same: bool)
        ensures
            same == self@.same_variant(other@),
    {
        match (self, other) {
            (TokenKind::LeftParen, TokenKind::LeftParen) => true,
            (TokenKind::RightParen, TokenKind::RightParen) => true,
            (TokenKind::LeftBrace, TokenKind::LeftBrace) => true,
            (TokenKind::RightBrace, TokenKind::RightBrace) => true,
            (TokenKind::Comma, TokenKind::Comma) => true,
            (TokenKind::Dot, TokenKind::Dot) => true,
            (TokenKind::Minus, TokenKind::Minus) => true,
            (TokenKind::Plus, TokenKind::Plus) => true,
            (TokenKind::Semicolon, TokenKind::Semicolon) => true,
            (TokenKind::Slash, TokenKind::Slash) => true,
            (TokenKind::Star, TokenKind::Star) => true,
            (TokenKind::Bang, TokenKind::Bang) => true,
            (TokenKind::BangEqual, TokenKind::BangEqual) => true,
            (TokenKind::Equal, TokenKind::Equal) => true,
            (TokenKind::EqualEqual, TokenKind::EqualEqual) => true,
            (TokenKind::Greater, TokenKind::Greater) => true,
            (TokenKind::GreaterEqual, TokenKind::GreaterEqual) => true,
            (TokenKind::Less, TokenKind::Less) => true,
            (TokenKind::LessEqual, TokenKind::LessEqual) => true,
            (TokenKind::Identifier(_), TokenKind::Identifier(_)) => true,
            (TokenKind::String(_), TokenKind::String(_)) => true,
            (TokenKind::Number(_), TokenKind::Number(_)) => true,
            (TokenKind::And, TokenKind::And) => true,
            (TokenKind::Class, TokenKind::Class) => true,
            (TokenKind::Else, TokenKind::Else) => true,
            (TokenKind::False, TokenKind::False) => true,
            (TokenKind::Fun, TokenKind::Fun) => true,
            (TokenKind::For, TokenKind::For) => true,
            (TokenKind::If, TokenKind::If) => true,
            (TokenKind::Nil, TokenKind::Nil) => true,
            (TokenKind::Or, TokenKind::Or) => true,
            (TokenKind::Print, TokenKind::Print) => true,
            (TokenKind::Return, TokenKind::Return) => true,
            (TokenKind::Super, TokenKind::Super) => true,
            (TokenKind::This, TokenKind::This) => true,
            (TokenKind::True, TokenKind::True) => true,
            (TokenKind::Var, TokenKind::Var) => true,
            (TokenKind::While, TokenKind::While) => true,
            (TokenKind::Eof, TokenKind::Eof) => true,
            _ => false,
        }
    }
}

/// A token: what it is, and the line and column the lexer had reached
/// when it had read it. Both count from 1.
#[derive(Debug)]
pub struct Token {
    line: usize,
    col: usize,
    kind: TokenKind,
}

/// The mathematical value of a [`Token`].
pub struct TokenView {
    pub line: nat,
    pub col: nat,
    pub kind: TokenKindView,
}

impl TokenView {
    /// How a token is written in diagnostics.
    pub open spec fn text(self) -> Seq<char> {
        "line "@ + decimal(self.line) + " col "@ + decimal(self.col) + " token "@
            + self.kind.text()
    }
}

impl View for Token {
    type V = TokenView;

    closed spec fn view(&self) -> TokenView {
        TokenView { line: self.line as nat, col: self.col as nat, kind: self.kind@ }
    }
}

impl Clone for Token {
    fn clone(&self) -> (copy: Token)
        ensures
            copy@ == self@,
    {
        Token { line: self.line, col: self.col, kind: self.kind.clone() }
    }
}

impl Token {
    pub fn new(line: usize, col: usize, kind: TokenKind) -> (token: Token)
        ensures
            token@ == (TokenView { line: line as nat, col: col as nat, kind: kind@ }),
    {
        Token { line, col, kind }
    }

    pub fn line(&self) -> (line: usize)
        ensures
            line == self@.line,
    {
        self.line
    }

    pub fn col(&self) -> (col: usize)
        ensures
            col == self@.col,
    {
        self.col
    }

    pub fn kind(&self) -> (kind: &TokenKind)
        ensures
            kind@ == self@.kind,
    {
        &self.kind
    }

    /// How this token is written in diagnostics.
    pub fn to_text(&self) -> (text: String)
        ensures
            text@ == self@.text(),
    {
        let mut text = String::from_str("line ");
        text.append(decimal_text(self.line).as_str());
        text.append(" col ");
        text.append(decimal_text(self.col).as_str());
        text.append(" token ");
        text.append(self.kind.to_text().as_str());
        text
    }

    /// The name that this token carries, if it is an identifier.
    pub fn identifier(&self) -> (name: Option<&String>)
        ensures
            match name {
                Some(name) => self@.kind.identifier() == Some(name@),
                None => self@.kind.identifier() is None,
            },
    {
        match &self.kind {
            TokenKind::Identifier(name) => Some(name),
            _ => None,
        }
    }

    /// The name that an identifier token carries.
    pub fn extract_identifier(&self) -> (name: &String)
        requires
            self@.kind is Identifier,
        ensures
            self@.kind == TokenKindView::Identifier(name@),
    {
        match &self.kind {
            TokenKind::Identifier(name) => name,
            _ => {
                proof {
                    assert(false);
                }
                vstd::pervasive::unreached()
            },
        }
    }
}

} // verus!
