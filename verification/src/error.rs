//! Why a parse stops.
use crate::token::TokenType;
use vstd::prelude::*;

verus! {

/// The three ways in which a parse fails. None is recovered from: the first
/// one met ends the parse.
#[derive(Debug, Copy, Clone, PartialEq, Eq, Structural)]
pub enum ParseError {
    /// An expression was to start at a token whose kind has no prefix
    /// parselet.
    UnparsableToken { found: TokenType },
    /// A token of one kind was required and another came.
    UnexpectedToken { expected: TokenType, found: TokenType },
    /// The left-hand side of an assignment is not a plain name.
    InvalidAssignmentTarget,
}

} // verus!
