use crate::scanner::{Token, TokenType};
use vstd::prelude::*;

verus! {

/// Binding power, weakest first; `Lowest` is for tokens that bind nothing.
#[derive(Clone, Copy, Debug, PartialEq, Eq, Structural)]
pub enum Precedence {
    Lowest,
    Assignment,
    Or,
    And,
    Equality,
    Comparison,
    Term,
    Factor,
    Unary,
    Call,
    Primary,
}

impl Precedence {
    /// The rank of this level, from 0 for `None` to 10 for `Primary`.
    pub open spec fn rank(self) -> nat {
        match self {
            Precedence::Lowest => 0,
            Precedence::Assignment => 1,
            Precedence::Or => 2,
            Precedence::And => 3,
            Precedence::Equality => 4,
            Precedence::Comparison => 5,
            Precedence::Term => 6,
            Precedence::Factor => 7,
            Precedence::Unary => 8,
            Precedence::Call => 9,
            Precedence::Primary => 10,
        }
    }

    /// The rank of this level.
    pub fn level(&self) -> (r: u8)
        ensures
            r == self.rank(),
    {
        match self {
            Precedence::Lowest => 0,
            Precedence::Assignment => 1,
            Precedence::Or => 2,
            Precedence::And => 3,
            Precedence::Equality => 4,
            Precedence::Comparison => 5,
            Precedence::Term => 6,
            Precedence::Factor => 7,
            Precedence::Unary => 8,
            Precedence::Call => 9,
            Precedence::Primary => 10,
        }
    }
}

/// The level just above `p`; `Primary` has none.
pub open spec fn next_level(p: Precedence) -> Precedence {
    match p {
        Precedence::Lowest => Precedence::Assignment,
        Precedence::Assignment => Precedence::Or,
        Precedence::Or => Precedence::And,
        Precedence::And => Precedence::Equality,
        Precedence::Equality => Precedence::Comparison,
        Precedence::Comparison => Precedence::Term,
        Precedence::Term => Precedence::Factor,
        Precedence::Factor => Precedence::Unary,
        Precedence::Unary => Precedence::Call,
        Precedence::Call => Precedence::Primary,
        Precedence::Primary => Precedence::Primary,
    }
}

/// The level just above `precedence`; there is none above `Primary`.
pub fn next_precedence(precedence: &Precedence) -> (r: Precedence)
    requires
        *precedence != Precedence::Primary,
    ensures
        r == next_level(*precedence),
        r.rank() == precedence.rank() + 1,
{
    match precedence {
        Precedence::Lowest => Precedence::Assignment,
        Precedence::Assignment => Precedence::Or,
        Precedence::Or => Precedence::And,
        Precedence::And => Precedence::Equality,
        Precedence::Equality => Precedence::Comparison,
        Precedence::Comparison => Precedence::Term,
        Precedence::Term => Precedence::Factor,
        Precedence::Factor => Precedence::Unary,
        Precedence::Unary => Precedence::Call,
        Precedence::Call => Precedence::Primary,
        Precedence::Primary => Precedence::Primary,
    }
}

/// The handlers that the parse table can name.
#[derive(Clone, Copy, Debug, PartialEq, Eq, Structural)]
pub enum ParseFn {
    Grouping,
    Unary,
    Binary,
    Number,
    Literal,
}

/// What a token does in an expression: how it starts one, how it continues
/// one as an infix operator, and how tightly it binds as such.
#[derive(Clone, Copy, Debug, PartialEq, Eq, Structural)]
pub struct ParseRule {
    pub prefix: Option<ParseFn>,
    pub infix: Option<ParseFn>,
    pub precedence: Precedence,
}

/// The parse table.
pub open spec fn rule_for(token_type: TokenType) -> ParseRule {
    match token_type {
        TokenType::LeftParen => ParseRule {
            prefix: Some(ParseFn::Grouping),
            infix: None,
            precedence: Precedence::Lowest,
        },
        TokenType::Minus => ParseRule {
            prefix: Some(ParseFn::Unary),
            infix: Some(ParseFn::Binary),
            precedence: Precedence::Term,
        },
        TokenType::Plus => ParseRule {
            prefix: None,
            infix: Some(ParseFn::Binary),
            precedence: Precedence::Term,
        },
        TokenType::Slash | TokenType::Star => ParseRule {
            prefix: None,
            infix: Some(ParseFn::Binary),
            precedence: Precedence::Factor,
        },
        TokenType::Bang => ParseRule {
            prefix: Some(ParseFn::Unary),
            infix: None,
            precedence: Precedence::Lowest,
        },
        TokenType::BangEqual | TokenType::EqualEqual => ParseRule {
            prefix: None,
            infix: Some(ParseFn::Binary),
            precedence: Precedence::Equality,
        },
        TokenType::Greater
        | TokenType::GreaterEqual
        | TokenType::Less
        | TokenType::LessEqual => ParseRule {
            prefix: None,
            infix: Some(ParseFn::Binary),
            precedence: Precedence::Comparison,
        },
        TokenType::Number => ParseRule {
            prefix: Some(ParseFn::Number),
            infix: None,
            precedence: Precedence::Lowest,
        },
        TokenType::False | TokenType::True | TokenType::Nil => ParseRule {
            prefix: Some(ParseFn::Literal),
            infix: None,
            precedence: Precedence::Lowest,
        },
        _ => ParseRule { prefix: None, infix: None, precedence: Precedence::Lowest },
    }
}

fn rule(prefix: Option<ParseFn>, infix: Option<ParseFn>, precedence: Precedence) -> (r: ParseRule)
    ensures
        r == (ParseRule { prefix, infix, precedence }),
{
    ParseRule { prefix, infix, precedence }
}

/// The state of the parser: the token just consumed, the one after it, and
/// whether an error has been reported (and further ones are being held back).
pub struct Parser {
    pub current: Token,
    pub previous: Token,
    pub had_error: bool,
    pub panic_mode: bool,
}

impl Parser {
    /// A parser that has read nothing and reported nothing.
    pub fn new() -> (r: Parser)
        ensures
            !r.had_error,
            !r.panic_mode,
            r.current == (Token {
                token_type: TokenType::EOF,
                start: 0,
                length: 0,
                line: 1,
                error: None,
            }),
            r.previous == r.current,
    {
        let empty = Token { token_type: TokenType::EOF, start: 0, length: 0, line: 1, error: None };
        Parser { current: empty, previous: empty, had_error: false, panic_mode: false }
    }

    /// The entry of the parse table for a kind of token.
    pub fn get_rule(&self, token_type: TokenType) -> (r: ParseRule)
        ensures
            r == rule_for(token_type),
    {
        match token_type {
            TokenType::LeftParen => rule(Some(ParseFn::Grouping), None, Precedence::Lowest),
            TokenType::Minus => rule(Some(ParseFn::Unary), Some(ParseFn::Binary), Precedence::Term),
            TokenType::Plus => rule(None, Some(ParseFn::Binary), Precedence::Term),
            TokenType::Slash | TokenType::Star => rule(
                None,
                Some(ParseFn::Binary),
                Precedence::Factor,
            ),
            TokenType::Bang => rule(Some(ParseFn::Unary), None, Precedence::Lowest),
            TokenType::BangEqual | TokenType::EqualEqual => rule(
                None,
                Some(ParseFn::Binary),
                Precedence::Equality,
            ),
            TokenType::Greater
            | TokenType::GreaterEqual
            | TokenType::Less
            | TokenType::LessEqual => rule(None, Some(ParseFn::Binary), Precedence::Comparison),
            TokenType::Number => rule(Some(ParseFn::Number), None, Precedence::Lowest),
            TokenType::False | TokenType::True | TokenType::Nil => rule(
                Some(ParseFn::Literal),
                None,
                Precedence::Lowest,
            ),
            _ => rule(None, None, Precedence::Lowest),
        }
    }
}

} // verus!
