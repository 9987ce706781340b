//! Pointer-interaction vocabulary of the page viewer: overlay buttons,
//! resize handles and the controls above a selected entry.
use vstd::prelude::*;

verus! {

/// The floating buttons in the viewer's overlay column.
#[derive(Debug, Clone, Copy, PartialEq, Eq, Structural)]
pub enum OverlayButton {
    GoTop,
    Save,
    GoBottom,
}

/// Which edges of an entry's box a resize handle moves.
#[derive(Debug, Clone, Copy, PartialEq, Eq, Structural)]
pub struct ResizeHandle {
    pub left: bool,
    pub right: bool,
    pub top: bool,
    pub bottom: bool,
}

/// The pointer shape shown over a resize handle.
#[derive(Debug, Clone, Copy, PartialEq, Eq, Structural)]
pub enum ResizeCursor {
    /// Top-left / bottom-right diagonal.
    DiagonallyDown,
    /// Top-right / bottom-left diagonal.
    DiagonallyUp,
    Vertically,
    Horizontally,
}

/// What a press on the controls above a selected entry hits.
#[derive(Debug, Clone, Copy, PartialEq, Eq, Structural)]
pub enum TopDecorHit {
    Rotate,
    Revert,
}

/// The handle whose flags are `(left, right, top, bottom)`.
pub open spec fn handle(left: bool, right: bool, top: bool, bottom: bool) -> ResizeHandle {
    ResizeHandle { left, right, top, bottom }
}

/// The corner index (top-left, top-right, bottom-right, bottom-left) that a
/// handle drags, for the four corner handles.
pub open spec fn corner_of(h: ResizeHandle) -> Option<usize> {
    if h == handle(true, false, true, false) {
        Some(0)
    } else if h == handle(false, true, true, false) {
        Some(1)
    } else if h == handle(false, true, false, true) {
        Some(2)
    } else if h == handle(true, false, false, true) {
        Some(3)
    } else {
        None
    }
}

/// The cursor shown over handle `h`.
pub open spec fn cursor_of(h: ResizeHandle) -> ResizeCursor {
    if h == handle(true, false, true, false) || h == handle(false, true, false, true) {
        ResizeCursor::DiagonallyDown
    } else if h == handle(false, true, true, false) || h == handle(true, false, false, true) {
        ResizeCursor::DiagonallyUp
    } else if h.top || h.bottom {
        ResizeCursor::Vertically
    } else {
        ResizeCursor::Horizontally
    }
}

impl ResizeHandle {
    /// The handle on the top-left corner.
    pub fn nw() -> (h: Self)
        ensures
            h == handle(true, false, true, false),
    {
        Self { left: true, right: false, top: true, bottom: false }
    }

    /// The handle on the top edge.
    pub fn n() -> (h: Self)
        ensures
            h == handle(false, false, true, false),
    {
        Self { left: false, right: false, top: true, bottom: false }
    }

    /// The handle on the top-right corner.
    pub fn ne() -> (h: Self)
        ensures
            h == handle(false, true, true, false),
    {
        Self { left: false, right: true, top: true, bottom: false }
    }

    /// The handle on the right edge.
    pub fn e() -> (h: Self)
        ensures
            h == handle(false, true, false, false),
    {
        Self { left: false, right: true, top: false, bottom: false }
    }

    /// The handle on the bottom-right corner.
    pub fn se() -> (h: Self)
        ensures
            h == handle(false, true, false, true),
    {
        Self { left: false, right: true, top: false, bottom: true }
    }

    /// The handle on the bottom edge.
    pub fn s() -> (h: Self)
        ensures
            h == handle(false, false, false, true),
    {
        Self { left: false, right: false, top: false, bottom: true }
    }

    /// The handle on the bottom-left corner.
    pub fn sw() -> (h: Self)
        ensures
            h == handle(true, false, false, true),
    {
        Self { left: true, right: false, top: false, bottom: true }
    }

    /// The handle on the left edge.
    pub fn w() -> (h: Self)
        ensures
            h == handle(true, false, false, false),
    {
        Self { left: true, right: false, top: false, bottom: false }
    }

    /// The pointer shape for this handle: diagonal for the corners, vertical
    /// when it moves the top or bottom edge, horizontal otherwise.
    pub fn cursor(self) -> (r: ResizeCursor)
        ensures
            r == cursor_of(self),
    {
        match self {
            Self { left: true, right: false, top: true, bottom: false }
            | Self { left: false, right: true, top: false, bottom: true } => {
                ResizeCursor::DiagonallyDown
            },
            Self { left: false, right: true, top: true, bottom: false }
            | Self { left: true, right: false, top: false, bottom: true } => {
                ResizeCursor::DiagonallyUp
            },
            Self { top: true, .. } | Self { bottom: true, .. } => ResizeCursor::Vertically,
            _ => ResizeCursor::Horizontally,
        }
    }

    /// The corner of the entry's quad this handle drags: 0 top-left,
    /// 1 top-right, 2 bottom-right, 3 bottom-left; `None` for edge handles.
    pub fn corner(self) -> (r: Option<usize>)
        ensures
            r == corner_of(self),
    {
        if self == Self::nw() {
            Some(0)
        } else if self == Self::ne() {
            Some(1)
        } else if self == Self::se() {
            Some(2)
        } else if self == Self::sw() {
            Some(3)
        } else {
            None
        }
    }
}

} // verus!

verus! {

/// The four corner handles drag four different corners, every other handle
/// drags none, and exactly the corner handles show a diagonal cursor.
pub proof fn lemma_corners_are_the_diagonal_handles(h: ResizeHandle)
    ensures
        corner_of(h) is Some <==> (cursor_of(h) == ResizeCursor::DiagonallyDown || cursor_of(h)
            == ResizeCursor::DiagonallyUp),
        corner_of(h) matches Some(c) ==> c < 4,
        corner_of(handle(true, false, true, false)) != corner_of(handle(false, true, true, false)),
        corner_of(handle(false, true, false, true)) != corner_of(handle(true, false, false, true)),
{
}

} // verus!
