//! The event-based newt parser: it records node boundaries and tokens as a flat list of
//! events from which a syntax tree is built.
pub mod marker;
pub mod parse_event;
pub mod parser;

use vstd::prelude::*;

verus! {

/// Whether a source is interpreted as a statement list or as a single expression.
#[derive(PartialEq, Eq, Structural, Copy, Clone, Debug)]
pub enum InterpretingSessionKind {
    Stmt,
    Expr,
}

/// A source text and how to interpret it.
pub struct InterpretingSession<'sess> {
    pub kind: InterpretingSessionKind,
    pub source: &'sess str,
}

impl<'sess> InterpretingSession<'sess> {
    /// A session interpreting `source` as `kind`.
    pub fn new(kind: InterpretingSessionKind, source: &'sess str) -> (s: InterpretingSession<
        'sess,
    >)
        ensures
            s.kind == kind,
            s.source == source,
    {
        InterpretingSession { kind, source }
    }
}

} // verus!
