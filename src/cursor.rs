use std::cmp::Ordering;
use vstd::prelude::*;

verus! {

/// A place in the document: line `y`, column `x` relative to the line's visible start.
#[derive(Debug, Clone, Copy, PartialEq, Eq, Structural, Ord)]
pub struct EditorPosition {
    pub y: usize,
    pub x: isize,
}

/// Whether `a` comes strictly before `b`, line first, then column.
pub open spec fn precedes(a: EditorPosition, b: EditorPosition) -> bool {
    a.y < b.y || (a.y == b.y && a.x < b.x)
}

/// The ordering of `a` against `b`, line first, then column.
pub open spec fn compare(a: EditorPosition, b: EditorPosition) -> Ordering {
    if precedes(a, b) {
        Ordering::Less
    } else if precedes(b, a) {
        Ordering::Greater
    } else {
        Ordering::Equal
    }
}

impl EditorPosition {
    pub fn new(y: usize, x: isize) -> (r: EditorPosition)
        ensures
            r.y == y,
            r.x == x,
    {
        EditorPosition { x, y }
    }

    /// Whether `self` comes strictly before `other`.
    pub fn is_before(&self, other: &EditorPosition) -> (r: bool)
        ensures
            r == precedes(*self, *other),
    {
        self.y < other.y || (self.y == other.y && self.x < other.x)
    }
}

impl PartialOrd for EditorPosition {
    fn partial_cmp(&self, other: &EditorPosition) -> (r: Option<Ordering>)
        ensures
            r == Some(compare(*self, *other)),
    {
        if self.y == other.y {
            if self.x < other.x {
                return Some(Ordering::Less);
            }
            if self.x > other.x {
                return Some(Ordering::Greater);
            }
            return Some(Ordering::Equal);
        }
        if self.y < other.y {
            return Some(Ordering::Less);
        }
        Some(Ordering::Greater)
    }
}

impl vstd::std_specs::cmp::PartialOrdSpecImpl for EditorPosition {
    open spec fn obeys_partial_cmp_spec() -> bool {
        true
    }

    open spec fn partial_cmp_spec(&self, other: &EditorPosition) -> Option<Ordering> {
        Some(compare(*self, *other))
    }
}

/// A caret: its position, and the column it aims for across vertical moves.
#[derive(Debug, Clone, Copy, PartialEq, Eq, Structural)]
pub struct Cursor {
    pub position: EditorPosition,
    pub preferred_x: isize,
}

impl Cursor {
    pub fn new(y: usize, x: isize, preferred_x: isize) -> (r: Cursor)
        ensures
            r.position == (EditorPosition { y, x }),
            r.preferred_x == preferred_x,
    {
        Cursor { position: EditorPosition::new(y, x), preferred_x }
    }
}

/// Which way a selection runs from its anchor.
#[derive(Debug, Clone, Copy, PartialEq, Eq, Structural)]
pub enum SelectionDirection {
    Backwards,
    Forwards,
}

/// A selection: an anchor `start` and a moving `end`.
#[derive(Debug, Clone, Copy, PartialEq, Eq, Structural)]
pub struct Selection {
    pub start: EditorPosition,
    pub end: EditorPosition,
}

/// The earlier of the two ends of `s`.
pub open spec fn smallest_of(s: Selection) -> EditorPosition {
    if precedes(s.start, s.end) {
        s.start
    } else {
        s.end
    }
}

/// The later of the two ends of `s`.
pub open spec fn largest_of(s: Selection) -> EditorPosition {
    if precedes(s.end, s.start) {
        s.start
    } else {
        s.end
    }
}

/// The direction of `s`: backwards where its end comes before its anchor.
pub open spec fn direction_of(s: Selection) -> SelectionDirection {
    if precedes(s.end, s.start) {
        SelectionDirection::Backwards
    } else {
        SelectionDirection::Forwards
    }
}

impl Selection {
    pub fn new(start: EditorPosition, end: EditorPosition) -> (r: Selection)
        ensures
            r.start == start,
            r.end == end,
    {
        Selection { start, end }
    }

    pub fn direction(&self) -> (r: SelectionDirection)
        ensures
            r == direction_of(*self),
    {
        if self.end.is_before(&self.start) {
            SelectionDirection::Backwards
        } else {
            SelectionDirection::Forwards
        }
    }

    pub fn smallest(&self) -> (r: EditorPosition)
        ensures
            r == smallest_of(*self),
    {
        if self.start.is_before(&self.end) {
            self.start
        } else {
            self.end
        }
    }

    pub fn largest(&self) -> (r: EditorPosition)
        ensures
            r == largest_of(*self),
    {
        if self.end.is_before(&self.start) {
            self.start
        } else {
            self.end
        }
    }
}

/// Where the next command applies: a caret, or a selection.
#[derive(Debug, Clone, Copy, PartialEq, Eq, Structural)]
pub enum EditLocation {
    Cursor(Cursor),
    Selection(Selection),
}

} // verus!
