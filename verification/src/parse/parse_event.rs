//! The events a parser records.
use vstd::prelude::*;
use crate::syntax::SyntaxKind;
use crate::tokens::TokenKind;

verus! {

/// One step of a parse: a meaningful token, a trivia token, the start of a node
/// (possibly one that a later node takes as its forward parent), or the end of a node.
#[derive(PartialEq, Copy, Clone, Debug)]
#[allow(inconsistent_fields)]
pub enum ParseEvent {
    Token { kind: TokenKind, length: usize },
    Trivia { kind: TokenKind, length: usize },
    BeginNode { kind: SyntaxKind, is_forward_parent: bool, forward_parent_offset: Option<usize> },
    EndNode,
}

/// The placeholder that opens a node whose kind is not known yet.
pub open spec fn spec_tombstone() -> ParseEvent {
    ParseEvent::BeginNode {
        kind: SyntaxKind::TombStone,
        is_forward_parent: false,
        forward_parent_offset: None,
    }
}

impl ParseEvent {
    /// The placeholder event that opens a node whose kind is not known yet.
    pub fn tombstone() -> (e: ParseEvent)
        ensures
            e == spec_tombstone(),
    {
        ParseEvent::BeginNode {
            kind: SyntaxKind::TombStone,
            is_forward_parent: false,
            forward_parent_offset: None,
        }
    }
}

} // verus!
