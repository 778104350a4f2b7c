//! Binding strength of operators.

use vstd::prelude::*;
use vstd::std_specs::cmp::PartialOrdSpecImpl;
use std::cmp::Ordering;
use crate::lexer::token::{TokenKind, TokenKindView};

verus! {

/// How tightly an operator binds, from loosest to tightest.
#[derive(Debug, Copy, Clone, PartialEq, Eq, Structural)]
pub enum Precedence {
    Lowset,  //
    Equals,  // ==
    LessGreater,  // < or >
    Sum,  // +
    Product,  // *
    Prefix,  // !X or -X
    Call,  // function()
}

impl Precedence {
    /// The place of a precedence on the ladder, 0 for the loosest.
    pub open spec fn rank(self) -> nat {
        match self {
            Precedence::Lowset => 0,
            Precedence::Equals => 1,
            Precedence::LessGreater => 2,
            Precedence::Sum => 3,
            Precedence::Product => 4,
            Precedence::Prefix => 5,
            Precedence::Call => 6,
        }
    }

    fn level(&self) -> (level: u8)
        ensures
            level == self.rank(),
    {
        match self {
            Precedence::Lowset => 0,
            Precedence::Equals => 1,
            Precedence::LessGreater => 2,
            Precedence::Sum => 3,
            Precedence::Product => 4,
            Precedence::Prefix => 5,
            Precedence::Call => 6,
        }
    }
}

impl PartialOrd for Precedence {
    fn partial_cmp(&self, other: &Precedence) -> (order: Option<Ordering>) {
        let mine = self.level();
        let theirs = other.level();
        if mine < theirs {
            Some(Ordering::Less)
        } else if mine == theirs {
            Some(Ordering::Equal)
        } else {
            Some(Ordering::Greater)
        }
    }
}

impl PartialOrdSpecImpl for Precedence {
    open spec fn obeys_partial_cmp_spec() -> bool {
        true
    }

    open spec fn partial_cmp_spec(&self, other: &Precedence) -> Option<Ordering> {
        if self.rank() < other.rank() {
            Some(Ordering::Less)
        } else if self.rank() == other.rank() {
            Some(Ordering::Equal)
        } else {
            Some(Ordering::Greater)
        }
    }
}

/// The precedence of `kind` as an infix operator; the lowest for every
/// kind that is none.
pub open spec fn precedence_of(kind: TokenKindView) -> Precedence {
    match kind {
        TokenKindView::Eq => Precedence::Equals,
        TokenKindView::NotEq => Precedence::Equals,
        TokenKindView::LT => Precedence::LessGreater,
        TokenKindView::GT => Precedence::LessGreater,
        TokenKindView::Plus => Precedence::Sum,
        TokenKindView::Minus => Precedence::Sum,
        TokenKindView::Star => Precedence::Product,
        TokenKindView::Slash => Precedence::Product,
        _ => Precedence::Lowset,
    }
}

/// The precedence of a token as an infix operator.
pub fn get_token_precedence(kind: &TokenKind) -> (precedence: Precedence)
    ensures
        precedence == precedence_of(kind@),
{
    match kind {
        TokenKind::Eq => Precedence::Equals,
        TokenKind::NotEq => Precedence::Equals,
        TokenKind::LT => Precedence::LessGreater,
        TokenKind::GT => Precedence::LessGreater,
        TokenKind::Plus => Precedence::Sum,
        TokenKind::Minus => Precedence::Sum,
        TokenKind::Star => Precedence::Product,
        TokenKind::Slash => Precedence::Product,
        _ => Precedence::Lowset,
    }
}

} // verus!
