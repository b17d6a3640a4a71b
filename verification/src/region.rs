//! Where an injected region lies in its host document.

use vstd::prelude::*;

verus! {

/// A place in a document.
#[derive(Clone, Copy, Debug, PartialEq, Eq, Structural)]
pub struct Position {
    pub line: u32,
    pub character: u32,
}

/// Whether one place lies behind another.
pub open spec fn is_behind(one: Position, other: Position) -> bool {
    one.line > other.line || (one.line == other.line && one.character > other.character)
}

/// Where a region begins: its first line, and the column at which each of its
/// lines begins. Lines without a column of their own begin at the margin.
#[derive(Debug, PartialEq, Eq)]
pub struct RegionOffset {
    line: u32,
    columns: Vec<u32>,
}

/// The mathematical content of a [`RegionOffset`].
pub struct OffsetView {
    pub line: u32,
    pub columns: Seq<u32>,
}

impl View for RegionOffset {
    type V = OffsetView;

    closed spec fn view(&self) -> OffsetView {
        OffsetView { line: self.line, columns: self.columns@ }
    }
}

/// The column at which a line of a region begins.
pub open spec fn column_of(offset: OffsetView, virtual_line: int) -> u32 {
    if 0 <= virtual_line < offset.columns.len() {
        offset.columns[virtual_line]
    } else {
        0
    }
}

/// How a place in the host document relates to a region.
#[derive(Clone, Copy, Debug, PartialEq, Eq, Structural)]
pub enum PositionVerdict {
    /// The place is in the region. Its very end counts.
    Within,
    /// The place is above the region: what is known of the region is out of date.
    AboveRegion,
    /// The place is behind the end of the region.
    PastEnd,
    /// The place is on a line of the region, before the column at which the line
    /// begins.
    BeforeColumn,
}

/// How a place in the host document relates to a region.
pub open spec fn verdict_on(position: Position, offset: OffsetView, region_end: Position) -> PositionVerdict {
    if position.line < offset.line {
        PositionVerdict::AboveRegion
    } else if is_behind(position, region_end) {
        PositionVerdict::PastEnd
    } else if position.character < column_of(offset, position.line - offset.line) {
        PositionVerdict::BeforeColumn
    } else {
        PositionVerdict::Within
    }
}

impl RegionOffset {
    /// A region that begins at a line and a column. The lines that follow begin at
    /// the margin.
    pub fn new(line: u32, column: u32) -> (offset: Self)
        ensures
            offset@ == (OffsetView { line, columns: seq![column] }),
    {
        let mut columns: Vec<u32> = Vec::new();
        columns.push(column);
        assert(columns@ =~= seq![column]);
        RegionOffset { line, columns }
    }

    /// A region that begins at a line, with a column for each of its lines.
    pub fn with_columns(line: u32, columns: Vec<u32>) -> (offset: Self)
        ensures
            offset@ == (OffsetView { line, columns: columns@ }),
    {
        RegionOffset { line, columns }
    }

    /// The first line of the region.
    pub fn line(&self) -> (line: u32)
        ensures
            line == self@.line,
    {
        self.line
    }

    /// The column at which a line of the region begins.
    pub fn column_for_line(&self, virtual_line: u32) -> (column: u32)
        ensures
            column == column_of(self@, virtual_line as int),
    {
        if (virtual_line as usize) < self.columns.len() {
            self.columns[virtual_line as usize]
        } else {
            0
        }
    }

    /// How a place in the host document relates to the region.
    pub fn judge(&self, position: Position, region_end: Position) -> (verdict: PositionVerdict)
        ensures
            verdict == verdict_on(position, self@, region_end),
    {
        if position.line < self.line {
            return PositionVerdict::AboveRegion;
        }
        if position.line > region_end.line || (position.line == region_end.line
            && position.character > region_end.character) {
            return PositionVerdict::PastEnd;
        }
        let virtual_line: u32 = position.line - self.line;
        if position.character < self.column_for_line(virtual_line) {
            return PositionVerdict::BeforeColumn;
        }
        PositionVerdict::Within
    }
}

/// A place that is let through has a place in the region: it is neither above nor
/// behind it, and not to the left of its line.
pub proof fn accepted_places_have_a_counterpart(
    position: Position,
    offset: OffsetView,
    region_end: Position,
)
    ensures
        verdict_on(position, offset, region_end) is Within <==> position.line >= offset.line
            && !is_behind(position, region_end) && position.character >= column_of(
            offset,
            position.line - offset.line,
        ),
{
}

/// What is said of a place follows from lines and columns alone: it is above the
/// region, past its end, before the column at which its line begins, or within,
/// in this order. The end itself is within, and a line without a column of its own
/// begins at the margin.
pub proof fn places_are_judged_by_line_and_column(
    position: Position,
    line: u32,
    columns: Seq<u32>,
    region_end: Position,
)
    ensures
        ({
            let verdict = verdict_on(position, OffsetView { line, columns }, region_end);
            let past = position.line > region_end.line || (position.line == region_end.line
                && position.character > region_end.character);
            let row = position.line - line;
            let margin: u32 = if row < columns.len() {
                columns[row]
            } else {
                0
            };
            &&& verdict is AboveRegion <==> position.line < line
            &&& verdict is PastEnd <==> position.line >= line && past
            &&& verdict is BeforeColumn <==> position.line >= line && !past && position.character
                < margin
            &&& verdict is Within <==> position.line >= line && !past && position.character
                >= margin
        }),
{
}

/// Whatever lies between two places of one line that are within a region is within
/// it too.
pub proof fn lines_have_no_gaps(
    left: Position,
    place: Position,
    right: Position,
    offset: OffsetView,
    region_end: Position,
)
    requires
        left.line == place.line == right.line,
        left.character <= place.character <= right.character,
        verdict_on(left, offset, region_end) is Within,
        verdict_on(right, offset, region_end) is Within,
    ensures
        verdict_on(place, offset, region_end) is Within,
{
}

} // verus!
