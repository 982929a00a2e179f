//! Markers for the nodes a parser opens and completes.
use vstd::prelude::*;
use crate::syntax::SyntaxKind;

verus! {

/// An open node: the index of its `BeginNode` event.
#[derive(Clone)]
pub struct Marker {
    index: usize,
    disabled: bool,
}

/// A completed node: the indices of its `BeginNode` and `EndNode` events, and its kind.
#[derive(Copy, Clone, Debug)]
pub struct CompletedMarker {
    start: usize,
    end: usize,
    kind: SyntaxKind,
}

impl Marker {
    /// The index of the node's `BeginNode` event.
    pub closed spec fn spec_index(&self) -> nat {
        self.index as nat
    }

    /// Whether the marker has been completed or abandoned.
    pub closed spec fn is_disabled(&self) -> bool {
        self.disabled
    }

    /// A live marker for the node opened at event `index`.
    pub fn new(index: usize) -> (m: Marker)
        ensures
            m.spec_index() == index,
            !m.is_disabled(),
    {
        Marker { index, disabled: false }
    }

    /// The index of the node's `BeginNode` event.
    pub fn index(&self) -> (i: usize)
        ensures
            i == self.spec_index(),
    {
        self.index
    }

    /// Completes the node: it spans from this marker's event to event `end` and has `kind`.
    pub fn defuse(self, end: usize, kind: SyntaxKind) -> (c: CompletedMarker)
        ensures
            c.spec_start() == self.spec_index(),
            c.spec_end() == end,
            c.spec_kind() == kind,
    {
        CompletedMarker { start: self.index, end, kind }
    }

    /// Gives up the node without completing it.
    pub fn abandon(&mut self)
        ensures
            final(self).spec_index() == old(self).spec_index(),
            final(self).is_disabled(),
    {
        self.disabled = true;
    }
}

impl View for CompletedMarker {
    type V = (nat, nat, SyntaxKind);

    /// The indices of the node's first and last events, and its kind.
    open spec fn view(&self) -> (nat, nat, SyntaxKind) {
        (self.spec_start(), self.spec_end(), self.spec_kind())
    }
}

impl CompletedMarker {
    /// The index of the node's `BeginNode` event.
    pub closed spec fn spec_start(&self) -> nat {
        self.start as nat
    }

    /// The index of the node's `EndNode` event.
    pub closed spec fn spec_end(&self) -> nat {
        self.end as nat
    }

    /// The kind of the node.
    pub closed spec fn spec_kind(&self) -> SyntaxKind {
        self.kind
    }

    /// The index of the node's `BeginNode` event.
    pub fn start(&self) -> (s: usize)
        ensures
            s == self.spec_start(),
    {
        self.start
    }

    /// The index of the node's `EndNode` event.
    pub fn end(&self) -> (e: usize)
        ensures
            e == self.spec_end(),
    {
        self.end
    }

    /// The kind of the node.
    pub fn kind(&self) -> (k: SyntaxKind)
        ensures
            k == self.spec_kind(),
    {
        self.kind
    }
}

} // verus!
