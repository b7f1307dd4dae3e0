//! Token kinds, their punctuators, and tokens.
use vstd::prelude::*;

verus! {

/// The kinds of token.
#[derive(Debug, Copy, Clone, PartialEq, Eq, Hash, Structural)]
pub enum TokenType {
    LeftParen,
    RightParen,
    Comma,
    Assign,
    Plus,
    Minus,
    Asterisk,
    Slash,
    Caret,
    Tilde,
    Bang,
    Question,
    Colon,
    Name,
    Eof,
}

/// How many kinds of token there are.
pub const KIND_COUNT: usize = 15;

/// The kind that the character `c` is the punctuator of, if any.
pub open spec fn kind_of_char(c: char) -> Option<TokenType> {
    if c == '(' {
        Some(TokenType::LeftParen)
    } else if c == ')' {
        Some(TokenType::RightParen)
    } else if c == ',' {
        Some(TokenType::Comma)
    } else if c == '=' {
        Some(TokenType::Assign)
    } else if c == '+' {
        Some(TokenType::Plus)
    } else if c == '-' {
        Some(TokenType::Minus)
    } else if c == '*' {
        Some(TokenType::Asterisk)
    } else if c == '/' {
        Some(TokenType::Slash)
    } else if c == '^' {
        Some(TokenType::Caret)
    } else if c == '~' {
        Some(TokenType::Tilde)
    } else if c == '!' {
        Some(TokenType::Bang)
    } else if c == '?' {
        Some(TokenType::Question)
    } else if c == ':' {
        Some(TokenType::Colon)
    } else {
        None
    }
}

impl TokenType {
    /// The punctuator of this kind; `Name` and `Eof` have none.
    pub open spec fn spec_punctuator(&self) -> Option<char> {
        match *self {
            TokenType::LeftParen => Some('('),
            TokenType::RightParen => Some(')'),
            TokenType::Comma => Some(','),
            TokenType::Assign => Some('='),
            TokenType::Plus => Some('+'),
            TokenType::Minus => Some('-'),
            TokenType::Asterisk => Some('*'),
            TokenType::Slash => Some('/'),
            TokenType::Caret => Some('^'),
            TokenType::Tilde => Some('~'),
            TokenType::Bang => Some('!'),
            TokenType::Question => Some('?'),
            TokenType::Colon => Some(':'),
            TokenType::Name | TokenType::Eof => None,
        }
    }

    /// The position of this kind in the declaration, from 0.
    pub open spec fn spec_ordinal(&self) -> u8 {
        match *self {
            TokenType::LeftParen => 0,
            TokenType::RightParen => 1,
            TokenType::Comma => 2,
            TokenType::Assign => 3,
            TokenType::Plus => 4,
            TokenType::Minus => 5,
            TokenType::Asterisk => 6,
            TokenType::Slash => 7,
            TokenType::Caret => 8,
            TokenType::Tilde => 9,
            TokenType::Bang => 10,
            TokenType::Question => 11,
            TokenType::Colon => 12,
            TokenType::Name => 13,
            TokenType::Eof => 14,
        }
    }

    #[verifier::when_used_as_spec(spec_punctuator)]
    pub fn punctuator(&self) -> (r: Option<char>)
        ensures
            r == self.spec_punctuator(),
    {
        match *self {
            Self::LeftParen => Some('('),
            Self::RightParen => Some(')'),
            Self::Comma => Some(','),
            Self::Assign => Some('='),
            Self::Plus => Some('+'),
            Self::Minus => Some('-'),
            Self::Asterisk => Some('*'),
            Self::Slash => Some('/'),
            Self::Caret => Some('^'),
            Self::Tilde => Some('~'),
            Self::Bang => Some('!'),
            Self::Question => Some('?'),
            Self::Colon => Some(':'),
            Self::Eof | Self::Name => None,
        }
    }

    /// The position of this kind in the declaration: the key under which the
    /// parselet tables file it.
    #[verifier::when_used_as_spec(spec_ordinal)]
    pub fn ordinal(&self) -> (r: u8)
        ensures
            r == self.spec_ordinal(),
            r < KIND_COUNT,
    {
        match *self {
            Self::LeftParen => 0,
            Self::RightParen => 1,
            Self::Comma => 2,
            Self::Assign => 3,
            Self::Plus => 4,
            Self::Minus => 5,
            Self::Asterisk => 6,
            Self::Slash => 7,
            Self::Caret => 8,
            Self::Tilde => 9,
            Self::Bang => 10,
            Self::Question => 11,
            Self::Colon => 12,
            Self::Name => 13,
            Self::Eof => 14,
        }
    }

    /// Every kind, in the order of the declaration.
    pub fn all() -> (kinds: [TokenType; 15])
        ensures
            forall|k: TokenType| #[trigger] kinds@[k.spec_ordinal() as int] == k,
            forall|i: int| 0 <= i < KIND_COUNT ==> (#[trigger] kinds@[i]).spec_ordinal() == i,
    {
        [
            Self::LeftParen,
            Self::RightParen,
            Self::Comma,
            Self::Assign,
            Self::Plus,
            Self::Minus,
            Self::Asterisk,
            Self::Slash,
            Self::Caret,
            Self::Tilde,
            Self::Bang,
            Self::Question,
            Self::Colon,
            Self::Name,
            Self::Eof,
        ]
    }
}

/// A character is the punctuator of exactly the kind that
/// [`kind_of_char`] gives for it, and of no other.
pub proof fn lemma_punctuator_inverse(k: TokenType, c: char)
    ensures
        k.spec_punctuator() == Some(c) <==> kind_of_char(c) == Some(k),
{
}

/// Two kinds with the same ordinal are the same kind.
pub proof fn lemma_ordinal_injective(a: TokenType, b: TokenType)
    ensures
        a.spec_ordinal() == b.spec_ordinal() <==> a == b,
{
}

/// The mathematical model of a token: its kind and the characters of its
/// text.
pub struct Lexeme {
    pub typ: TokenType,
    pub literal: Seq<char>,
}

impl Lexeme {
    /// The end-of-input marker: kind `Eof`, empty text.
    pub open spec fn eof() -> Lexeme {
        Lexeme { typ: TokenType::Eof, literal: Seq::empty() }
    }
}

/// A token: a kind and the slice of the source that it was read from.
#[derive(Debug, Copy, Clone, PartialEq)]
pub struct Token<'source> {
    pub literal: &'source str,
    pub typ: TokenType,
}

impl<'source> View for Token<'source> {
    type V = Lexeme;

    open spec fn view(&self) -> Lexeme {
        Lexeme { typ: self.typ, literal: self.literal@ }
    }
}

/// The models of a sequence of tokens, in order.
pub open spec fn lexemes_of(toks: Seq<Token<'_>>) -> Seq<Lexeme> {
    toks.map_values(|t: Token<'_>| t@)
}

} // verus!
