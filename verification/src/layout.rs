//! The shape of laid out text: lines, the rows they wrap into, and glyphs.
use crate::geometry::Point;
use crate::length::Length;
use vstd::prelude::*;

verus! {

/// A shaped character.
#[derive(PartialEq, Debug)]
pub struct Glyph<T> {
    /// The byte offset of the character in its line.
    pub index: usize,
    /// Where the glyph starts, if the line were not wrapped.
    pub x: T,
}

impl<T: Copy> Clone for Glyph<T> {
    fn clone(&self) -> (r: Self)
        ensures
            r == *self,
    {
        *self
    }
}

impl<T: Copy> Copy for Glyph<T> {

}

/// A run of glyphs in one font.
#[derive(PartialEq, Debug)]
pub struct ShapedRun<T> {
    pub glyphs: Vec<Glyph<T>>,
}

/// The glyph that a wrapped row ends before.
#[derive(Clone, Copy, PartialEq, Eq, Debug)]
pub struct WrapBoundary {
    pub run_ix: usize,
    pub glyph_ix: usize,
}

/// A line of text, wrapped into rows.
#[derive(PartialEq, Debug)]
pub struct WrappedLineLayout<T> {
    /// The number of bytes of the line, without its line break.
    pub len: usize,
    /// The width of the line, if it were not wrapped.
    pub width: T,
    /// The height of all rows of the line together.
    pub height: T,
    pub runs: Vec<ShapedRun<T>>,
    pub wrap_boundaries: Vec<WrapBoundary>,
}

/// A text, laid out.
#[derive(PartialEq, Debug)]
pub struct TextLayout<T> {
    /// The top left corner of the first line.
    pub origin: Point<T>,
    /// The height of one row.
    pub line_height: T,
    pub lines: Vec<WrappedLineLayout<T>>,
}

/// The glyphs of some runs, in reading order.
pub open spec fn glyphs_of<T>(runs: Seq<ShapedRun<T>>) -> Seq<Glyph<T>>
    decreases runs.len(),
{
    if runs.len() == 0 {
        Seq::empty()
    } else {
        glyphs_of(runs.drop_last()) + runs.last().glyphs@
    }
}

/// The position of the first glyph, from the `from`-th on, that stands for byte `i` or a
/// later one; past the last glyph if there is none.
pub open spec fn glyph_from<T>(glyphs: Seq<Glyph<T>>, i: int, from: int) -> int
    decreases glyphs.len() - from,
{
    if from >= glyphs.len() || glyphs[from].index >= i {
        from
    } else {
        glyph_from(glyphs, i, from + 1)
    }
}

/// The first row, from the `from`-th on, that byte `i` does not lie beyond, or the last
/// row. `ends` holds where each row ends.
pub open spec fn row_from(ends: Seq<usize>, i: int, from: int) -> int
    decreases ends.len() - from,
{
    if from + 1 >= ends.len() || i <= ends[from] {
        from
    } else {
        row_from(ends, i, from + 1)
    }
}

/// The furthest byte at which one of the rows before the `row`-th ends.
pub open spec fn row_start(ends: Seq<usize>, row: int) -> int
    decreases row,
{
    if row <= 0 {
        0
    } else if row_start(ends, row - 1) >= ends[row - 1] {
        row_start(ends, row - 1)
    } else {
        ends[row - 1] as int
    }
}

impl<T: Length> WrappedLineLayout<T> {
    /// Every wrap boundary names a glyph of the line.
    pub open spec fn wf(self) -> bool {
        forall|j: int| #![trigger self.wrap_boundaries@[j]]
            0 <= j < self.wrap_boundaries@.len() ==> {
                &&& self.wrap_boundaries@[j].run_ix < self.runs@.len()
                &&& self.wrap_boundaries@[j].glyph_ix
                    < self.runs@[self.wrap_boundaries@[j].run_ix as int].glyphs@.len()
            }
    }

    /// The glyphs of the line, in reading order.
    pub open spec fn glyphs(self) -> Seq<Glyph<T>> {
        glyphs_of(self.runs@)
    }

    /// The byte at which each row ends. The last one ends with the line.
    pub open spec fn row_ends(self) -> Seq<usize> {
        Seq::new(
            self.wrap_boundaries@.len() + 1,
            |j: int|
                if j < self.wrap_boundaries@.len() {
                    let boundary = self.wrap_boundaries@[j];
                    self.runs@[boundary.run_ix as int].glyphs@[boundary.glyph_ix as int].index
                } else {
                    self.len
                },
        )
    }

    /// Where byte `i` starts if the line were not wrapped: at the first glyph that stands
    /// for it or a later byte, or at the end of the line.
    pub open spec fn x_for_index(self, i: int) -> T {
        let at = glyph_from(self.glyphs(), i, 0);
        if at < self.glyphs().len() {
            self.glyphs()[at].x
        } else {
            self.width
        }
    }

    /// The row that byte `i` is drawn on.
    pub open spec fn row_of(self, i: int) -> int {
        row_from(self.row_ends(), i, 0)
    }

    /// Where a row starts if the line were not wrapped.
    pub open spec fn row_start_x(self, row: int) -> T {
        if row == 0 {
            T::zero_spec()
        } else {
            self.x_for_index(row_start(self.row_ends(), row))
        }
    }

    /// Where byte `i` starts on its row.
    pub open spec fn x_on_row(self, i: int) -> T {
        self.x_for_index(i).minus_spec(self.row_start_x(self.row_of(i)))
    }

    /// Where byte `i` is drawn if the line starts at `origin` and its rows are
    /// `row_height` high.
    pub open spec fn position_for_index(self, origin: Point<T>, row_height: T, i: int) -> Point<T> {
        Point {
            x: origin.x.plus_spec(self.x_on_row(i)),
            y: origin.y.plus_spec(row_height.times_spec(self.row_of(i) as usize)),
        }
    }

    /// How wide the character at byte `i` is drawn: up to the next byte where that is on
    /// the same row, otherwise half a line height.
    pub open spec fn width_at(self, line_height: T, i: int) -> T {
        if i + 1 <= self.row_ends()[self.row_of(i)] {
            self.x_for_index(i + 1).minus_spec(self.row_start_x(self.row_of(i))).minus_spec(
                self.x_on_row(i),
            )
        } else {
            line_height.half_spec()
        }
    }
}

impl<T: Length> TextLayout<T> {
    /// Every line is well formed, and offsets into the text fit a machine word.
    pub open spec fn wf(self) -> bool {
        &&& forall|j: int| 0 <= j < self.lines@.len() ==> (#[trigger] self.lines@[j]).wf()
        &&& self.line_start(self.lines@.len() as int) <= usize::MAX
    }

    /// The byte offset in the text at which line `j` starts. A line break takes one byte.
    pub open spec fn line_start(self, j: int) -> int
        decreases j,
    {
        if j <= 0 {
            0
        } else {
            self.line_start(j - 1) + self.lines@[j - 1].len + 1
        }
    }

    /// The y coordinate of the top of line `j`.
    pub open spec fn line_top(self, j: int) -> T
        decreases j,
    {
        if j <= 0 {
            self.origin.y
        } else {
            self.line_top(j - 1).plus_spec(self.lines@[j - 1].height)
        }
    }

    /// The top left corner of line `j`.
    pub open spec fn line_origin(self, j: int) -> Point<T> {
        Point { x: self.origin.x, y: self.line_top(j) }
    }
}

/// Lines start one after the other.
pub proof fn lemma_line_start_monotone<T: Length>(layout: TextLayout<T>, i: int, j: int)
    requires
        0 <= i <= j,
    ensures
        layout.line_start(i) + (j - i) <= layout.line_start(j),
    decreases j,
{
    if i < j {
        lemma_line_start_monotone(layout, i, j - 1);
    }
}

/// The search for a glyph ends within bounds, past all glyphs for earlier bytes, and at
/// one that is not.
pub proof fn lemma_glyph_from<T>(glyphs: Seq<Glyph<T>>, i: int, from: int)
    requires
        0 <= from <= glyphs.len(),
    ensures
        from <= glyph_from(glyphs, i, from) <= glyphs.len(),
        forall|p: int| from <= p < glyph_from(glyphs, i, from) ==> #[trigger] glyphs[p].index < i,
        glyph_from(glyphs, i, from) < glyphs.len() ==> glyphs[glyph_from(glyphs, i, from)].index
            >= i,
    decreases glyphs.len() - from,
{
    if !(from >= glyphs.len() || glyphs[from].index >= i) {
        lemma_glyph_from(glyphs, i, from + 1);
    }
}

proof fn lemma_glyph_skip<T>(glyphs: Seq<Glyph<T>>, i: int, from: int, to: int)
    requires
        0 <= from <= to <= glyphs.len(),
        forall|p: int| from <= p < to ==> #[trigger] glyphs[p].index < i,
    ensures
        glyph_from(glyphs, i, from) == glyph_from(glyphs, i, to),
    decreases to - from,
{
    if from < to {
        assert(glyphs[from].index < i);
        lemma_glyph_skip(glyphs, i, from + 1, to);
    }
}

/// A search that goes on where a search for byte `i` ended finds what a search from the
/// start for the later of the two bytes finds.
pub proof fn lemma_glyph_resume<T>(glyphs: Seq<Glyph<T>>, i: int, j: int)
    ensures
        glyph_from(glyphs, j, glyph_from(glyphs, i, 0)) == glyph_from(
            glyphs,
            if i <= j { j } else { i },
            0,
        ),
{
    lemma_glyph_from(glyphs, i, 0);
    if i <= j {
        lemma_glyph_skip(glyphs, j, 0, glyph_from(glyphs, i, 0));
    }
}

/// The search for a row ends within bounds, and no row before it is long enough.
pub proof fn lemma_row_from(ends: Seq<usize>, i: int, from: int)
    requires
        0 <= from < ends.len(),
    ensures
        from <= row_from(ends, i, from) < ends.len(),
        forall|r: int| from <= r < row_from(ends, i, from) ==> #[trigger] ends[r] < i,
        row_from(ends, i, from) + 1 < ends.len() ==> i <= ends[row_from(ends, i, from)],
    decreases ends.len() - from,
{
    if !(from + 1 >= ends.len() || i <= ends[from]) {
        lemma_row_from(ends, i, from + 1);
    }
}

proof fn lemma_row_skip(ends: Seq<usize>, i: int, from: int, to: int)
    requires
        0 <= from <= to < ends.len(),
        forall|r: int| from <= r < to ==> #[trigger] ends[r] < i,
    ensures
        row_from(ends, i, from) == row_from(ends, i, to),
    decreases to - from,
{
    if from < to {
        assert(ends[from] < i);
        lemma_row_skip(ends, i, from + 1, to);
    }
}

/// A search for a row that goes on where a search for an earlier byte ended finds what a
/// search from the start finds.
pub proof fn lemma_row_resume(ends: Seq<usize>, i: int, j: int)
    requires
        ends.len() > 0,
        i <= j,
    ensures
        row_from(ends, j, row_from(ends, i, 0)) == row_from(ends, j, 0),
{
    lemma_row_from(ends, i, 0);
    lemma_row_skip(ends, j, 0, row_from(ends, i, 0));
}

} // verus!
