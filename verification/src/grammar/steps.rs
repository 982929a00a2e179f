//! The parser's operations as the grammar uses them, each either a new parser state
//! or `None` where the operation would panic.
use vstd::prelude::*;
use crate::parse::parse_event::ParseEvent;
use crate::parse::parser::{ParserModel, with_kind, with_forward_parent};
use crate::syntax::SyntaxKind;
use crate::tokens::TokenKind;

verus! {

/// A completed node: the indices of its first and last events, and its kind.
pub type Node = (nat, nat, SyntaxKind);

/// How many tokens are left to read, counting the end of file as one; this shrinks
/// with every token consumed until the end of file has been consumed.
pub open spec fn rest(m: ParserModel) -> nat {
    if m.consumed <= m.tokens.len() {
        (m.tokens.len() + 1 - m.consumed) as nat
    } else {
        0
    }
}

/// Consumes the current token, which must be of `kind`.
pub open spec fn step_token(m: ParserModel, kind: TokenKind) -> Option<ParserModel> {
    if m.current() == kind && m.consumed < usize::MAX {
        Some(m.take_token())
    } else {
        None
    }
}

/// Consumes the current token if it is of `kind`, and says whether it did.
pub open spec fn step_token_if(m: ParserModel, kind: TokenKind) -> Option<(ParserModel, bool)> {
    if m.current() != kind {
        Some((m, false))
    } else if m.consumed < usize::MAX {
        Some((m.take_token(), true))
    } else {
        None
    }
}

/// Expects a token of `kind`, recovering with `message` otherwise.
pub open spec fn step_expect(m: ParserModel, kind: TokenKind, message: &'static str) -> Option<ParserModel> {
    if m.consumed < usize::MAX {
        Some(m.expect(kind, message))
    } else {
        None
    }
}

/// Closes the node opened at event `index` with `kind`.
pub open spec fn step_end(m: ParserModel, index: nat, kind: SyntaxKind) -> Option<(ParserModel, Node)> {
    if index < m.events.len() && m.events[index as int] is BeginNode {
        Some((m.end(index, kind), (index, m.events.len(), kind)))
    } else {
        None
    }
}

/// Makes the node opened at event `parent` the forward parent of `child`.
pub open spec fn step_precede(m: ParserModel, child: Node, parent: nat) -> Option<ParserModel> {
    if child.0 < m.events.len() && m.events[child.0 as int] is BeginNode && child.0 <= parent
        < m.events.len() {
        Some(
            ParserModel {
                events: m.events.update(
                    child.0 as int,
                    with_forward_parent(m.events[child.0 as int], (parent - child.0) as usize),
                ).update(
                    parent as int,
                    ParseEvent::BeginNode {
                        kind: SyntaxKind::TombStone,
                        is_forward_parent: true,
                        forward_parent_offset: None,
                    },
                ),
                ..m
            },
        )
    } else {
        None
    }
}

/// Gives the completed node `node` the kind `kind`.
pub open spec fn step_remap(m: ParserModel, node: Node, kind: SyntaxKind) -> Option<ParserModel> {
    if node.0 < m.events.len() {
        Some(
            ParserModel {
                events: m.events.update(node.0 as int, with_kind(m.events[node.0 as int], kind)),
                ..m
            },
        )
    } else {
        None
    }
}

/// Past the last token every token reads as the end of file.
pub proof fn lemma_current_within(m: ParserModel)
    ensures
        m.current() != TokenKind::EndOfFile ==> m.consumed < m.tokens.len(),
{
}

/// Consuming a token keeps the tokens, moves the cursor forward, and shrinks what is
/// left to read unless the end of file has already been consumed.
pub proof fn lemma_consume_progress(m: ParserModel, e: ParseEvent)
    ensures
        m.consume_as(e).tokens == m.tokens,
        m.consume_as(e).consumed >= m.consumed + 1,
        m.consume_as(e).root == m.root,
        m.consume_as(e).panicking == m.panicking,
        rest(m.consume_as(e)) <= rest(m),
        m.consumed <= m.tokens.len() ==> rest(m.consume_as(e)) < rest(m),
{
}

/// Meeting or failing an expectation consumes one token, as `lemma_consume_progress` says.
pub proof fn lemma_expect_progress(m: ParserModel, kind: TokenKind, message: &'static str)
    ensures
        m.expect(kind, message).tokens == m.tokens,
        m.expect(kind, message).consumed >= m.consumed + 1,
        rest(m.expect(kind, message)) <= rest(m),
        m.consumed <= m.tokens.len() ==> rest(m.expect(kind, message)) < rest(m),
{
    lemma_consume_progress(m, ParseEvent::Token { kind: m.current(), length: m.current_token().length });
    lemma_consume_progress(m, ParseEvent::Token { kind: TokenKind::TombStone, length: m.current_token().length });
    let r = ParserModel { panicking: true, ..m };
    let (i, opened) = r.begin();
    lemma_consume_progress(
        opened,
        ParseEvent::Token { kind: opened.current(), length: opened.current_token().length },
    );
}

/// What is left to read never grows as the cursor moves forward over the same tokens.
pub proof fn lemma_rest_monotone(a: ParserModel, b: ParserModel)
    requires
        a.tokens == b.tokens,
        a.consumed <= b.consumed,
    ensures
        rest(b) <= rest(a),
        a.consumed < b.consumed && a.consumed <= a.tokens.len() ==> rest(b) < rest(a),
{
}

} // verus!
