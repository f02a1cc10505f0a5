//! Lexical tokens: the tag-only `TokenKind`, the payload-carrying `Token`,
//! and the mathematical view that contracts speak about.

use vstd::prelude::*;

verus! {

/// The tag of a token, without any payload.
#[derive(Hash, Debug, PartialEq, Eq, Clone, Copy, Structural)]
pub enum TokenKind {
    Illegal,
    Eof,
    Ident,
    Int,
    Assign,
    Plus,
    Minus,
    Bang,
    Asterisk,
    Slash,
    Lt,
    Gt,
    Eq,
    NotEq,
    Comma,
    Semicolon,
    Lparen,
    Rparen,
    Lbrace,
    Rbrace,
    Function,
    Let,
    True,
    False,
    If,
    Else,
    Return,
}

/// A classified lexical unit. `Illegal`, `Ident` and `Int` carry the source
/// text they were scanned from; every other variant has one fixed spelling.
#[derive(Debug, PartialEq, Eq)]
pub enum Token {
    Illegal(String),
    Eof,
    Ident(String),
    Int(String),
    Assign,
    Plus,
    Minus,
    Bang,
    Asterisk,
    Slash,
    Lt,
    Gt,
    Eq,
    NotEq,
    Comma,
    Semicolon,
    Lparen,
    Rparen,
    Lbrace,
    Rbrace,
    Function,
    Let,
    True,
    False,
    If,
    Else,
    Return,
}

/// What a token is, mathematically: its kind and the text it renders to.
pub struct TokenView {
    pub kind: TokenKind,
    pub text: Seq<char>,
}

impl TokenKind {
    /// True for operators, delimiters and keywords: the kinds whose spelling
    /// is determined by the kind alone.
    pub open spec fn has_fixed_lexeme(self) -> bool {
        !(self is Illegal || self is Eof || self is Ident || self is Int)
    }

    /// True for the reserved words of the language.
    pub open spec fn is_keyword(self) -> bool {
        self is Function || self is Let || self is True || self is False || self is If
            || self is Else || self is Return
    }

    /// The spelling of a token of this kind that carries no payload. The
    /// end marker renders as a single NUL character; kinds with a payload
    /// have no spelling of their own and yield the empty text.
    pub open spec fn lexeme(self) -> Seq<char> {
        match self {
            TokenKind::Illegal => Seq::empty(),
            TokenKind::Eof => seq!['\0'],
            TokenKind::Ident => Seq::empty(),
            TokenKind::Int => Seq::empty(),
            TokenKind::Assign => seq!['='],
            TokenKind::Plus => seq!['+'],
            TokenKind::Minus => seq!['-'],
            TokenKind::Bang => seq!['!'],
            TokenKind::Asterisk => seq!['*'],
            TokenKind::Slash => seq!['/'],
            TokenKind::Lt => seq!['<'],
            TokenKind::Gt => seq!['>'],
            TokenKind::Eq => seq!['=', '='],
            TokenKind::NotEq => seq!['!', '='],
            TokenKind::Comma => seq![','],
            TokenKind::Semicolon => seq![';'],
            TokenKind::Lparen => seq!['('],
            TokenKind::Rparen => seq![')'],
            TokenKind::Lbrace => seq!['{'],
            TokenKind::Rbrace => seq!['}'],
            TokenKind::Function => seq!['f', 'n'],
            TokenKind::Let => seq!['l', 'e', 't'],
            TokenKind::True => seq!['t', 'r', 'u', 'e'],
            TokenKind::False => seq!['f', 'a', 'l', 's', 'e'],
            TokenKind::If => seq!['i', 'f'],
            TokenKind::Else => seq!['e', 'l', 's', 'e'],
            TokenKind::Return => seq!['r', 'e', 't', 'u', 'r', 'n'],
        }
    }

    /// Position of the kind in declaration order.
    pub open spec fn spec_index(self) -> u8 {
        match self {
            TokenKind::Illegal => 0,
            TokenKind::Eof => 1,
            TokenKind::Ident => 2,
            TokenKind::Int => 3,
            TokenKind::Assign => 4,
            TokenKind::Plus => 5,
            TokenKind::Minus => 6,
            TokenKind::Bang => 7,
            TokenKind::Asterisk => 8,
            TokenKind::Slash => 9,
            TokenKind::Lt => 10,
            TokenKind::Gt => 11,
            TokenKind::Eq => 12,
            TokenKind::NotEq => 13,
            TokenKind::Comma => 14,
            TokenKind::Semicolon => 15,
            TokenKind::Lparen => 16,
            TokenKind::Rparen => 17,
            TokenKind::Lbrace => 18,
            TokenKind::Rbrace => 19,
            TokenKind::Function => 20,
            TokenKind::Let => 21,
            TokenKind::True => 22,
            TokenKind::False => 23,
            TokenKind::If => 24,
            TokenKind::Else => 25,
            TokenKind::Return => 26,
        }
    }

    /// Position of the kind in declaration order; distinct kinds have
    /// distinct indices, so the index can key a table.
    #[verifier::when_used_as_spec(spec_index)]
    pub fn index(self) -> (i: u8)
        ensures
            i == self.spec_index(),
            i < 27,
    {
        match self {
            TokenKind::Illegal => 0,
            TokenKind::Eof => 1,
            TokenKind::Ident => 2,
            TokenKind::Int => 3,
            TokenKind::Assign => 4,
            TokenKind::Plus => 5,
            TokenKind::Minus => 6,
            TokenKind::Bang => 7,
            TokenKind::Asterisk => 8,
            TokenKind::Slash => 9,
            TokenKind::Lt => 10,
            TokenKind::Gt => 11,
            TokenKind::Eq => 12,
            TokenKind::NotEq => 13,
            TokenKind::Comma => 14,
            TokenKind::Semicolon => 15,
            TokenKind::Lparen => 16,
            TokenKind::Rparen => 17,
            TokenKind::Lbrace => 18,
            TokenKind::Rbrace => 19,
            TokenKind::Function => 20,
            TokenKind::Let => 21,
            TokenKind::True => 22,
            TokenKind::False => 23,
            TokenKind::If => 24,
            TokenKind::Else => 25,
            TokenKind::Return => 26,
        }
    }
}

impl View for Token {
    type V = TokenView;

    open spec fn view(&self) -> TokenView {
        TokenView {
            kind: self.spec_kind(),
            text: match self {
                Token::Illegal(s) => s@,
                Token::Ident(s) => s@,
                Token::Int(s) => s@,
                _ => self.spec_kind().lexeme(),
            },
        }
    }
}

impl TokenView {
    /// The view of a payload-free token of the given kind.
    pub open spec fn fixed(kind: TokenKind) -> TokenView {
        TokenView { kind, text: kind.lexeme() }
    }

    /// The view of the end marker.
    pub open spec fn eof() -> TokenView {
        TokenView::fixed(TokenKind::Eof)
    }

    /// How the token reads in a message: its text, or the name of its kind
    /// for the end marker.
    pub open spec fn description(self) -> Seq<char> {
        if self.kind == TokenKind::Eof {
            TokenKind::Eof.spec_name()
        } else {
            self.text
        }
    }
}

impl Token {
    /// The tag of this token.
    pub open spec fn spec_kind(&self) -> TokenKind {
        match self {
            Token::Illegal(_) => TokenKind::Illegal,
            Token::Eof => TokenKind::Eof,
            Token::Ident(_) => TokenKind::Ident,
            Token::Int(_) => TokenKind::Int,
            Token::Assign => TokenKind::Assign,
            Token::Plus => TokenKind::Plus,
            Token::Minus => TokenKind::Minus,
            Token::Bang => TokenKind::Bang,
            Token::Asterisk => TokenKind::Asterisk,
            Token::Slash => TokenKind::Slash,
            Token::Lt => TokenKind::Lt,
            Token::Gt => TokenKind::Gt,
            Token::Eq => TokenKind::Eq,
            Token::NotEq => TokenKind::NotEq,
            Token::Comma => TokenKind::Comma,
            Token::Semicolon => TokenKind::Semicolon,
            Token::Lparen => TokenKind::Lparen,
            Token::Rparen => TokenKind::Rparen,
            Token::Lbrace => TokenKind::Lbrace,
            Token::Rbrace => TokenKind::Rbrace,
            Token::Function => TokenKind::Function,
            Token::Let => TokenKind::Let,
            Token::True => TokenKind::True,
            Token::False => TokenKind::False,
            Token::If => TokenKind::If,
            Token::Else => TokenKind::Else,
            Token::Return => TokenKind::Return,
        }
    }

    /// True when both tokens have the same tag, whatever their payloads.
    pub fn variant_eq(&self, tok: &Token) -> (same: bool)
        ensures
            same == (self@.kind == tok@.kind),
    {
        self.kind() == tok.kind()
    }

    /// The tag of this token, with the payload dropped.
    #[verifier::when_used_as_spec(spec_kind)]
    pub fn kind(&self) -> (kind: TokenKind)
        ensures
            kind == self@.kind,
    {
        match self {
            Token::Illegal(_) => TokenKind::Illegal,
            Token::Eof => TokenKind::Eof,
            Token::Ident(_) => TokenKind::Ident,
            Token::Int(_) => TokenKind::Int,
            Token::Assign => TokenKind::Assign,
            Token::Plus => TokenKind::Plus,
            Token::Minus => TokenKind::Minus,
            Token::Bang => TokenKind::Bang,
            Token::Asterisk => TokenKind::Asterisk,
            Token::Slash => TokenKind::Slash,
            Token::Lt => TokenKind::Lt,
            Token::Gt => TokenKind::Gt,
            Token::Eq => TokenKind::Eq,
            Token::NotEq => TokenKind::NotEq,
            Token::Comma => TokenKind::Comma,
            Token::Semicolon => TokenKind::Semicolon,
            Token::Lparen => TokenKind::Lparen,
            Token::Rparen => TokenKind::Rparen,
            Token::Lbrace => TokenKind::Lbrace,
            Token::Rbrace => TokenKind::Rbrace,
            Token::Function => TokenKind::Function,
            Token::Let => TokenKind::Let,
            Token::True => TokenKind::True,
            Token::False => TokenKind::False,
            Token::If => TokenKind::If,
            Token::Else => TokenKind::Else,
            Token::Return => TokenKind::Return,
        }
    }

    /// Renders the token back to source text: the payload of `Illegal`,
    /// `Ident` and `Int`, the fixed spelling of every other variant.
    pub fn to_string(&self) -> (text: String)
        ensures
            text@ == self@.text,
    {
        match self {
            Token::Illegal(s) => s.clone(),
            Token::Ident(s) => s.clone(),
            Token::Int(s) => s.clone(),
            _ => self.kind().spelling(),
        }
    }

    /// A copy of the token with the same kind and the same text.
    pub fn duplicate(&self) -> (copy: Token)
        ensures
            copy@ == self@,
    {
        match self {
            Token::Illegal(s) => Token::Illegal(s.clone()),
            Token::Eof => Token::Eof,
            Token::Ident(s) => Token::Ident(s.clone()),
            Token::Int(s) => Token::Int(s.clone()),
            Token::Assign => Token::Assign,
            Token::Plus => Token::Plus,
            Token::Minus => Token::Minus,
            Token::Bang => Token::Bang,
            Token::Asterisk => Token::Asterisk,
            Token::Slash => Token::Slash,
            Token::Lt => Token::Lt,
            Token::Gt => Token::Gt,
            Token::Eq => Token::Eq,
            Token::NotEq => Token::NotEq,
            Token::Comma => Token::Comma,
            Token::Semicolon => Token::Semicolon,
            Token::Lparen => Token::Lparen,
            Token::Rparen => Token::Rparen,
            Token::Lbrace => Token::Lbrace,
            Token::Rbrace => Token::Rbrace,
            Token::Function => Token::Function,
            Token::Let => Token::Let,
            Token::True => Token::True,
            Token::False => Token::False,
            Token::If => Token::If,
            Token::Else => Token::Else,
            Token::Return => Token::Return,
        }
    }

    /// How the token reads in a message: its text, or `EOF` for the end
    /// marker, whose text is not printable.
    pub fn describe(&self) -> (text: String)
        ensures
            text@ == self@.description(),
    {
        match self {
            Token::Eof => TokenKind::Eof.name(),
            _ => self.to_string(),
        }
    }
}

impl TokenKind {
    /// The fixed spelling of this kind as an owned string (see `lexeme`).
    pub fn spelling(self) -> (text: String)
        ensures
            text@ == self.lexeme(),
    {
        proof {
            reveal_strlit("");
            reveal_strlit("\0");
            reveal_strlit("=");
            reveal_strlit("+");
            reveal_strlit("-");
            reveal_strlit("!");
            reveal_strlit("*");
            reveal_strlit("/");
            reveal_strlit("<");
            reveal_strlit(">");
            reveal_strlit("==");
            reveal_strlit("!=");
            reveal_strlit(",");
            reveal_strlit(";");
            reveal_strlit("(");
            reveal_strlit(")");
            reveal_strlit("{");
            reveal_strlit("}");
            reveal_strlit("fn");
            reveal_strlit("let");
            reveal_strlit("true");
            reveal_strlit("false");
            reveal_strlit("if");
            reveal_strlit("else");
            reveal_strlit("return");
        }
        let literal = match self {
            TokenKind::Illegal => "",
            TokenKind::Eof => "\0",
            TokenKind::Ident => "",
            TokenKind::Int => "",
            TokenKind::Assign => "=",
            TokenKind::Plus => "+",
            TokenKind::Minus => "-",
            TokenKind::Bang => "!",
            TokenKind::Asterisk => "*",
            TokenKind::Slash => "/",
            TokenKind::Lt => "<",
            TokenKind::Gt => ">",
            TokenKind::Eq => "==",
            TokenKind::NotEq => "!=",
            TokenKind::Comma => ",",
            TokenKind::Semicolon => ";",
            TokenKind::Lparen => "(",
            TokenKind::Rparen => ")",
            TokenKind::Lbrace => "{",
            TokenKind::Rbrace => "}",
            TokenKind::Function => "fn",
            TokenKind::Let => "let",
            TokenKind::True => "true",
            TokenKind::False => "false",
            TokenKind::If => "if",
            TokenKind::Else => "else",
            TokenKind::Return => "return",
        };
        let text = literal.to_owned();
        assert(text@ =~= self.lexeme());
        text
    }

    /// The name a kind goes by in messages: a word in capitals for the end
    /// marker and the kinds that carry text, the spelling for every other.
    pub open spec fn spec_name(self) -> Seq<char> {
        match self {
            TokenKind::Illegal => "ILLEGAL"@,
            TokenKind::Eof => "EOF"@,
            TokenKind::Ident => "IDENT"@,
            TokenKind::Int => "INT"@,
            _ => self.lexeme(),
        }
    }

    /// The name a kind goes by in messages (see `spec_name`).
    pub fn name(self) -> (text: String)
        ensures
            text@ == self.spec_name(),
    {
        match self {
            TokenKind::Illegal => "ILLEGAL".to_owned(),
            TokenKind::Eof => "EOF".to_owned(),
            TokenKind::Ident => "IDENT".to_owned(),
            TokenKind::Int => "INT".to_owned(),
            _ => self.spelling(),
        }
    }
}

} // verus!
