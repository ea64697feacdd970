use vstd::prelude::*;

verus! {

/// Range of input source in lines and columns.
/// It contains two points: the From position and the To position,
/// each of them measured as (line, column).
#[derive(Clone, Copy, Debug, PartialEq, Eq, Structural)]
pub struct InputRange {
    pub line_from: isize,
    pub column_from: isize,
    pub line_to: isize,
    pub column_to: isize,
}

/// Which of the two points of a range a comparison looks at.
enum RangePosition {
    From,
    To,
}

/// `(l1, c1)` sorts strictly before `(l2, c2)` in (line, column) order.
pub open spec fn point_lt(l1: int, c1: int, l2: int, c2: int) -> bool {
    l1 < l2 || (l1 == l2 && c1 < c2)
}

/// `(l1, c1)` sorts before or at `(l2, c2)` in (line, column) order.
pub open spec fn point_le(l1: int, c1: int, l2: int, c2: int) -> bool {
    point_lt(l1, c1, l2, c2) || (l1 == l2 && c1 == c2)
}

/// The range with both points at the start of the source.
pub open spec fn zero_range() -> InputRange {
    InputRange {
        line_from: InputRange::MIN_LINE,
        column_from: InputRange::MIN_COLUMN,
        line_to: InputRange::MIN_LINE,
        column_to: InputRange::MIN_COLUMN,
    }
}

/// The range from the start of the source to the unbounded end.
pub open spec fn all_range() -> InputRange {
    InputRange {
        line_from: InputRange::MIN_LINE,
        column_from: InputRange::MIN_COLUMN,
        line_to: InputRange::MAX_LINE,
        column_to: InputRange::MAX_COLUMN,
    }
}

/// The point is the start of the source: the smallest line and column.
pub open spec fn is_start(line: isize, column: isize) -> bool {
    line == InputRange::MIN_LINE && column == InputRange::MIN_COLUMN
}

/// What `InputRange::build` returns: the two sentinel shapes are normalised,
/// everything else is kept as given.
pub open spec fn range_of(line1: isize, column1: isize, line2: isize, column2: isize)
    -> InputRange
{
    if is_start(line1, column1) && is_start(line2, column2) {
        zero_range()
    } else if is_start(line1, column1) && line2 == InputRange::MAX_LINE && column2
        == InputRange::MAX_COLUMN {
        all_range()
    } else {
        InputRange { line_from: line1, column_from: column1, line_to: line2, column_to: column2 }
    }
}

impl InputRange {
    /// Smallest line number of a source text.
    pub const MIN_LINE: isize = 1;

    /// Smallest column number of a source text.
    pub const MIN_COLUMN: isize = 0;

    /// Line number that stands for "without bound".
    pub const MAX_LINE: isize = isize::MAX;

    /// Column number that stands for "without bound".
    pub const MAX_COLUMN: isize = isize::MAX;

    /// The "from" point of `self` sorts strictly before that of `other`.
    pub open spec fn from_lt(self, other: InputRange) -> bool {
        point_lt(
            self.line_from as int,
            self.column_from as int,
            other.line_from as int,
            other.column_from as int,
        )
    }

    /// The "to" point of `self` sorts strictly before that of `other`.
    pub open spec fn to_lt(self, other: InputRange) -> bool {
        point_lt(
            self.line_to as int,
            self.column_to as int,
            other.line_to as int,
            other.column_to as int,
        )
    }

    /// The covering range of `self` and `other`: the earlier "from" point and the later "to" point.
    pub open spec fn spec_extent(self, other: InputRange) -> InputRange {
        let first = if self.from_lt(other) { self } else { other };
        let last = if self.to_lt(other) { other } else { self };
        InputRange {
            line_from: first.line_from,
            column_from: first.column_from,
            line_to: last.line_to,
            column_to: last.column_to,
        }
    }

    /// Builds a new InputRange.
    pub fn build(line1: isize, column1: isize, line2: isize, column2: isize) -> (r: InputRange)
        ensures
            r == range_of(line1, column1, line2, column2),
    {
        let from_start = line1 == InputRange::MIN_LINE && column1 == InputRange::MIN_COLUMN;
        if from_start && line2 == InputRange::MIN_LINE && column2 == InputRange::MIN_COLUMN {
            InputRange::zero()
        } else if from_start && line2 == InputRange::MAX_LINE && column2 == InputRange::MAX_COLUMN {
            InputRange::all()
        } else {
            InputRange { line_from: line1, column_from: column1, line_to: line2, column_to: column2 }
        }
    }

    /// The empty range at the start of the source.
    pub fn zero() -> (r: InputRange)
        ensures
            r == zero_range(),
    {
        InputRange {
            line_from: InputRange::MIN_LINE,
            column_from: InputRange::MIN_COLUMN,
            line_to: InputRange::MIN_LINE,
            column_to: InputRange::MIN_COLUMN,
        }
    }

    /// The range that covers the whole source.
    pub fn all() -> (r: InputRange)
        ensures
            r == all_range(),
    {
        InputRange {
            line_from: InputRange::MIN_LINE,
            column_from: InputRange::MIN_COLUMN,
            line_to: InputRange::MAX_LINE,
            column_to: InputRange::MAX_COLUMN,
        }
    }

    /// Checks whether the chosen point of `self` sorts strictly before
    /// the same point of `other`.
    fn less_than(&self, other: &InputRange, position: RangePosition) -> (r: bool)
        ensures
            r == match position {
                RangePosition::From => self.from_lt(*other),
                RangePosition::To => self.to_lt(*other),
            },
    {
        let (line1, line2) = match position {
            RangePosition::From => (self.line_from, other.line_from),
            RangePosition::To => (self.line_to, other.line_to),
        };
        let (column1, column2) = match position {
            RangePosition::From => (self.column_from, other.column_from),
            RangePosition::To => (self.column_to, other.column_to),
        };
        line1 < line2 || (line1 == line2 && column1 < column2)
    }

    /// Combines two InputRanges into a range containing both input ranges.
    pub fn extent(&self, other: &InputRange) -> (r: InputRange)
        ensures
            r == self.spec_extent(*other),
    {
        let first = if self.less_than(other, RangePosition::From) {
            self
        } else {
            other
        };
        let last = if self.less_than(other, RangePosition::To) {
            other
        } else {
            self
        };
        InputRange {
            line_from: first.line_from,
            line_to: last.line_to,
            column_from: first.column_from,
            column_to: last.column_to,
        }
    }
}

/// Merging is bounds-correct: the "from" point of `extent(a, b)` is the one of
/// `a.from`, `b.from` that sorts first, its "to" point the one of `a.to`, `b.to`
/// that sorts last, and the argument order does not matter.
pub proof fn lemma_extent_bounds(a: InputRange, b: InputRange)
    ensures
        a.spec_extent(b) == b.spec_extent(a),
        ({
            let e = a.spec_extent(b);
            &&& point_le(e.line_from as int, e.column_from as int, a.line_from as int, a.column_from as int)
            &&& point_le(e.line_from as int, e.column_from as int, b.line_from as int, b.column_from as int)
            &&& ((e.line_from == a.line_from && e.column_from == a.column_from)
                || (e.line_from == b.line_from && e.column_from == b.column_from))
            &&& point_le(a.line_to as int, a.column_to as int, e.line_to as int, e.column_to as int)
            &&& point_le(b.line_to as int, b.column_to as int, e.line_to as int, e.column_to as int)
            &&& ((e.line_to == a.line_to && e.column_to == a.column_to)
                || (e.line_to == b.line_to && e.column_to == b.column_to))
        }),
{
}

/// Merging is associative.
pub proof fn lemma_extent_associative(a: InputRange, b: InputRange, c: InputRange)
    ensures
        a.spec_extent(b).spec_extent(c) == a.spec_extent(b.spec_extent(c)),
{
}

} // verus!
