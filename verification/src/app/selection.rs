//! Positions and selections in task output.

use vstd::prelude::*;

verus! {

/// A position in output content: the source line, and the character in the
/// line's text without escape sequences. Anchored to content, it survives
/// resizing, wrap toggles and new output.
#[derive(Debug, Clone, Copy, PartialEq, Eq, PartialOrd, Ord, Structural)]
pub struct SelPos {
    pub line: usize,
    pub ch: usize,
}

impl SelPos {
    /// Whether this position comes before `other`, or is the same.
    pub open spec fn up_to(self, other: SelPos) -> bool {
        self.line < other.line || (self.line == other.line && self.ch <= other.ch)
    }
}

/// A drag selection over the output pane, in progress or completed.
#[derive(Debug, Clone, Copy)]
pub struct OutputSelection {
    /// The task whose output the positions refer to.
    pub task: Option<usize>,
    pub anchor: SelPos,
    pub head: SelPos,
    pub dragging: bool,
}

impl OutputSelection {
    /// The two ends in document order.
    pub open spec fn ends(self) -> (SelPos, SelPos) {
        if self.anchor.up_to(self.head) {
            (self.anchor, self.head)
        } else {
            (self.head, self.anchor)
        }
    }

    /// The two ends in document order.
    pub fn ordered(&self) -> (r: (SelPos, SelPos))
        ensures
            r == self.ends(),
            r.0.up_to(r.1),
    {
        if self.anchor.line < self.head.line || (self.anchor.line == self.head.line
            && self.anchor.ch <= self.head.ch) {
            (self.anchor, self.head)
        } else {
            (self.head, self.anchor)
        }
    }

    /// Whether nothing is selected: a click without a drag.
    pub fn is_empty(&self) -> (r: bool)
        ensures
            r == (self.anchor == self.head),
    {
        self.anchor == self.head
    }
}

/// A press on output content that has not become a selection. The first drag
/// turns it into one; a release discards it.
#[derive(Debug, Clone, Copy)]
pub struct PendingSel {
    /// The task shown when the press came.
    pub task: Option<usize>,
    pub pos: SelPos,
}

} // verus!
