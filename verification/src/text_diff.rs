//! Lines of a text diff.

use vstd::prelude::*;

verus! {

/// How a line of a text diff changed.
#[derive(Debug, Clone, Copy, PartialEq, Eq, Structural)]
pub enum DiffChangeType {
    Equal,
    Insert,
    Delete,
}

/// A highlighted part of a line, as a range of character positions.
#[derive(Debug, Clone, Copy, PartialEq, Eq, Structural)]
pub struct HighlightSegment {
    pub start: usize,
    pub end: usize,
}

/// A line of a text diff, with its line numbers on each side.
#[derive(Debug, Clone)]
pub struct DiffLine {
    pub line_number_left: Option<usize>,
    pub line_number_right: Option<usize>,
    pub content: String,
    pub change_type: DiffChangeType,
    pub highlighted_segments: Vec<HighlightSegment>,
}

/// Model of a diff line.
pub type DiffLineModel = (Option<usize>, Option<usize>, Seq<char>, DiffChangeType, Seq<HighlightSegment>);

pub open spec fn line_view(l: DiffLine) -> DiffLineModel {
    (l.line_number_left, l.line_number_right, l.content@, l.change_type, l.highlighted_segments@)
}

pub open spec fn lines_view(v: Seq<DiffLine>) -> Seq<DiffLineModel> {
    v.map_values(|l: DiffLine| line_view(l))
}

} // verus!
