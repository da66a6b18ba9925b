//! Laws on where the characters of a laid out line are drawn.
use crate::geometry::Point;
use crate::layout::{
    glyph_from, glyphs_of, lemma_glyph_from, lemma_row_from, row_start, ShapedRun,
    TextLayout, WrappedLineLayout,
};
use crate::length::Length;
use vstd::prelude::*;

verus! {

/// The byte index of the glyph that the `j`-th wrap boundary of a line names.
pub open spec fn boundary_index<T>(line: WrappedLineLayout<T>, j: int) -> int {
    let boundary = line.wrap_boundaries@[j];
    line.runs@[boundary.run_ix as int].glyphs@[boundary.glyph_ix as int].index as int
}

/// A byte is drawn on row `j` or an earlier one if and only if it does not lie beyond the
/// glyph of every wrap boundary up to the `j`-th. There is one row more than there are
/// boundaries.
pub proof fn law_row_by_boundaries<T: Length>(line: WrappedLineLayout<T>, i: int, j: int)
    requires
        0 <= j < line.wrap_boundaries@.len(),
    ensures
        0 <= line.row_of(i) <= line.wrap_boundaries@.len(),
        line.row_of(i) <= j <==> exists|r: int|
            0 <= r <= j && i <= #[trigger] boundary_index(line, r),
{
    let ends = line.row_ends();
    let row = line.row_of(i);
    lemma_row_from(ends, i, 0);
    if row <= j {
        assert(ends[row] == boundary_index(line, row));
    } else {
        assert forall|r: int| 0 <= r <= j implies i > #[trigger] boundary_index(line, r) by {
            assert(ends[r] < i);
        }
    }
}

/// A line without wrap boundaries is one row.
pub proof fn law_unwrapped_line_is_one_row<T: Length>(line: WrappedLineLayout<T>, i: int)
    requires
        line.wrap_boundaries@.len() == 0,
    ensures
        line.row_of(i) == 0,
{
}

/// Where wrap boundaries follow the text, the bytes up to and including the glyph of the
/// `j`-th one are on row `j` or before, and all later bytes after it.
pub proof fn law_boundary_splits_rows<T: Length>(line: WrappedLineLayout<T>, i: int, j: int)
    requires
        0 <= j < line.wrap_boundaries@.len(),
        forall|a: int, b: int|
            0 <= a <= b < line.wrap_boundaries@.len() ==> #[trigger] boundary_index(line, a)
                <= #[trigger] boundary_index(line, b),
    ensures
        i <= boundary_index(line, j) ==> line.row_of(i) <= j,
        i > boundary_index(line, j) ==> line.row_of(i) > j,
{
    law_row_by_boundaries(line, i, j);
    if i > boundary_index(line, j) {
        assert forall|r: int| 0 <= r <= j implies i > #[trigger] boundary_index(line, r) by {
            assert(boundary_index(line, r) <= boundary_index(line, j));
        }
    }
}

/// Whether a glyph, named by its run and its place in the run, is another one or comes
/// before it in reading order.
pub open spec fn reads_by(run: int, glyph: int, other_run: int, other_glyph: int) -> bool {
    run < other_run || run == other_run && glyph <= other_glyph
}

/// Whether the byte indices of the glyphs of a line increase in reading order.
pub open spec fn glyphs_increase<T>(line: WrappedLineLayout<T>) -> bool {
    forall|q: int, g: int, r: int, h: int|
        #![trigger line.runs@[q].glyphs@[g], line.runs@[r].glyphs@[h]]
        0 <= q < line.runs@.len() && 0 <= g < line.runs@[q].glyphs@.len() && 0 <= r
            < line.runs@.len() && 0 <= h < line.runs@[r].glyphs@.len() && reads_by(q, g, r, h) && (
        q, g) != (r, h) ==> line.runs@[q].glyphs@[g].index < line.runs@[r].glyphs@[h].index
}

/// Whether the wrap boundaries of a line follow each other in reading order.
pub open spec fn boundaries_in_order<T>(line: WrappedLineLayout<T>) -> bool {
    forall|a: int, b: int|
        #![trigger line.wrap_boundaries@[a], line.wrap_boundaries@[b]]
        0 <= a <= b < line.wrap_boundaries@.len() ==> reads_by(
            line.wrap_boundaries@[a].run_ix as int,
            line.wrap_boundaries@[a].glyph_ix as int,
            line.wrap_boundaries@[b].run_ix as int,
            line.wrap_boundaries@[b].glyph_ix as int,
        )
}

/// In a line whose glyphs and wrap boundaries are in reading order, the character of a glyph
/// is on row `j` or before if and only if the glyph is that of the `j`-th boundary or comes
/// before it.
pub proof fn law_glyph_is_on_row<T: Length>(line: WrappedLineLayout<T>, r: int, g: int, j: int)
    requires
        line.wf(),
        glyphs_increase(line),
        boundaries_in_order(line),
        0 <= r < line.runs@.len(),
        0 <= g < line.runs@[r].glyphs@.len(),
        0 <= j < line.wrap_boundaries@.len(),
    ensures
        line.row_of(line.runs@[r].glyphs@[g].index as int) <= j <==> reads_by(
            r,
            g,
            line.wrap_boundaries@[j].run_ix as int,
            line.wrap_boundaries@[j].glyph_ix as int,
        ),
{
    let i = line.runs@[r].glyphs@[g].index as int;
    assert forall|a: int, b: int| 0 <= a <= b < line.wrap_boundaries@.len() implies #[trigger]
        boundary_index(line, a) <= #[trigger] boundary_index(line, b) by {
        let x = line.wrap_boundaries@[a];
        let y = line.wrap_boundaries@[b];
        assert(line.runs@[x.run_ix as int].glyphs@[x.glyph_ix as int].index
            <= line.runs@[y.run_ix as int].glyphs@[y.glyph_ix as int].index);
    }
    law_boundary_splits_rows(line, i, j);
    let x = line.wrap_boundaries@[j];
    assert(boundary_index(line, j)
        == line.runs@[x.run_ix as int].glyphs@[x.glyph_ix as int].index);
}

/// A line of a single run of glyphs in order that wraps once, before its `n`-th glyph, keeps
/// its glyphs up to the `n`-th on the first row and puts the later ones on the second.
pub proof fn law_wrap_before_glyph<T: Length>(line: WrappedLineLayout<T>, n: int, m: int)
    requires
        line.runs@.len() == 1,
        line.wrap_boundaries@.len() == 1,
        line.wrap_boundaries@[0].run_ix == 0,
        line.wrap_boundaries@[0].glyph_ix == n,
        0 <= n < line.runs@[0].glyphs@.len(),
        0 <= m < line.runs@[0].glyphs@.len(),
        forall|a: int, b: int|
            0 <= a < b < line.runs@[0].glyphs@.len() ==> line.runs@[0].glyphs@[a].index
                < line.runs@[0].glyphs@[b].index,
    ensures
        line.row_of(line.runs@[0].glyphs@[m].index as int) == (if m <= n {
            0int
        } else {
            1
        }),
{
    let i = line.runs@[0].glyphs@[m].index as int;
    law_row_by_boundaries(line, i, 0);
    assert(boundary_index(line, 0) == line.runs@[0].glyphs@[n].index);
    if m > n {
        assert forall|r: int| 0 <= r <= 0 implies i > #[trigger] boundary_index(line, r) by {}
    }
}

proof fn lemma_glyphs_concat<T>(a: Seq<ShapedRun<T>>, b: Seq<ShapedRun<T>>)
    ensures
        glyphs_of(a + b) == glyphs_of(a) + glyphs_of(b),
    decreases b.len(),
{
    if b.len() == 0 {
        assert(a + b =~= a);
        assert(glyphs_of(a) + glyphs_of(b) =~= glyphs_of(a));
    } else {
        assert((a + b).drop_last() =~= a + b.drop_last());
        lemma_glyphs_concat(a, b.drop_last());
        assert(glyphs_of(a + b) =~= glyphs_of(a) + glyphs_of(b));
    }
}

proof fn lemma_glyphs_before<T>(runs: Seq<ShapedRun<T>>, i: int)
    requires
        forall|q: int, h: int| #![trigger runs[q].glyphs@[h]]
            0 <= q < runs.len() && 0 <= h < runs[q].glyphs@.len() ==> runs[q].glyphs@[h].index < i,
    ensures
        forall|p: int| 0 <= p < glyphs_of(runs).len() ==> #[trigger] glyphs_of(runs)[p].index < i,
    decreases runs.len(),
{
    if runs.len() > 0 {
        let front = runs.drop_last();
        assert forall|q: int, h: int| #![trigger front[q].glyphs@[h]]
            0 <= q < front.len() && 0 <= h < front[q].glyphs@.len() implies front[q].glyphs@[h].index
            < i by {
            assert(front[q] == runs[q]);
            assert(runs[q].glyphs@[h].index < i);
        }
        lemma_glyphs_before(front, i);
        assert forall|p: int| 0 <= p < glyphs_of(runs).len() implies #[trigger] glyphs_of(
            runs,
        )[p].index < i by {
            let before = glyphs_of(front);
            if p < before.len() {
                assert(glyphs_of(runs)[p] == before[p]);
            } else {
                let h = p - before.len();
                assert(glyphs_of(runs)[p] == runs[runs.len() - 1].glyphs@[h]);
            }
        }
    }
}

/// A byte starts where the first glyph in reading order starts that stands for it or a
/// later byte.
pub proof fn law_x_of_first_glyph<T: Length>(line: WrappedLineLayout<T>, i: int, r: int, g: int)
    requires
        0 <= r < line.runs@.len(),
        0 <= g < line.runs@[r].glyphs@.len(),
        line.runs@[r].glyphs@[g].index >= i,
        forall|h: int| 0 <= h < g ==> #[trigger] line.runs@[r].glyphs@[h].index < i,
        forall|q: int, h: int| #![trigger line.runs@[q].glyphs@[h]]
            0 <= q < r && 0 <= h < line.runs@[q].glyphs@.len() ==> line.runs@[q].glyphs@[h].index
                < i,
    ensures
        line.x_for_index(i) == line.runs@[r].glyphs@[g].x,
{
    let runs = line.runs@;
    let all = glyphs_of(runs);
    let before = glyphs_of(runs.take(r));
    assert(runs =~= runs.take(r) + runs.skip(r));
    lemma_glyphs_concat(runs.take(r), runs.skip(r));
    assert(runs.skip(r) =~= seq![runs[r]] + runs.skip(r + 1));
    lemma_glyphs_concat(seq![runs[r]], runs.skip(r + 1));
    assert(glyphs_of(seq![runs[r]]) =~= runs[r].glyphs@) by {
        reveal_with_fuel(glyphs_of, 2);
        assert(seq![runs[r]].drop_last() =~= Seq::<ShapedRun<T>>::empty());
    }
    assert forall|q: int, h: int| #![trigger runs.take(r)[q].glyphs@[h]]
        0 <= q < r && 0 <= h < runs.take(r)[q].glyphs@.len() implies runs.take(
        r,
    )[q].glyphs@[h].index < i by {
        assert(runs.take(r)[q] == runs[q]);
        assert(runs[q].glyphs@[h].index < i);
    }
    lemma_glyphs_before(runs.take(r), i);
    let at = before.len() + g;
    assert(all[at] == runs[r].glyphs@[g]);
    lemma_glyph_from(all, i, 0);
    let found = glyph_from(all, i, 0);
    if found < at {
        if found < before.len() {
            assert(all[found] == before[found]);
        } else {
            assert(all[found] == runs[r].glyphs@[found - before.len()]);
        }
    } else if at < found {
        assert(all[at].index < i);
    }
}

/// A byte past all glyphs starts at the end of the line.
pub proof fn law_x_past_glyphs<T: Length>(line: WrappedLineLayout<T>, i: int)
    requires
        forall|q: int, h: int| #![trigger line.runs@[q].glyphs@[h]]
            0 <= q < line.runs@.len() && 0 <= h < line.runs@[q].glyphs@.len()
                ==> line.runs@[q].glyphs@[h].index < i,
    ensures
        line.x_for_index(i) == line.width,
{
    lemma_glyphs_before(line.runs@, i);
    lemma_glyph_from(line.glyphs(), i, 0);
}

/// Whether `start` is the furthest byte at which a wrap boundary before a row lies.
pub open spec fn is_row_start<T>(line: WrappedLineLayout<T>, row: int, start: int) -> bool {
    &&& exists|r: int| 0 <= r < row && #[trigger] boundary_index(line, r) == start
    &&& forall|r: int| 0 <= r < row ==> #[trigger] boundary_index(line, r) <= start
}

/// Where a byte is drawn: on the first row, as far to the right as without wrapping; on a
/// later one, less by where the byte of the boundary before that row starts. Rows follow
/// each other downwards at the height of a row.
pub proof fn law_position<T: Length>(
    line: WrappedLineLayout<T>,
    origin: Point<T>,
    row_height: T,
    i: int,
    start: int,
)
    requires
        line.row_of(i) > 0 ==> is_row_start(line, line.row_of(i), start),
    ensures
        line.position_for_index(origin, row_height, i).y == origin.y.plus_spec(
            row_height.times_spec(line.row_of(i) as usize),
        ),
        line.row_of(i) == 0 ==> line.position_for_index(origin, row_height, i).x
            == origin.x.plus_spec(line.x_for_index(i).minus_spec(T::zero_spec())),
        line.row_of(i) > 0 ==> line.position_for_index(origin, row_height, i).x
            == origin.x.plus_spec(line.x_for_index(i).minus_spec(line.x_for_index(start))),
{
    lemma_row_from(line.row_ends(), i, 0);
    if line.row_of(i) > 0 {
        lemma_row_start(line, line.row_of(i), start);
    }
}

proof fn lemma_row_start<T: Length>(line: WrappedLineLayout<T>, row: int, start: int)
    requires
        0 < row <= line.wrap_boundaries@.len(),
        is_row_start(line, row, start),
    ensures
        row_start(line.row_ends(), row) == start,
{
    lemma_furthest(line, row);
    let s = row_start(line.row_ends(), row);
    let r = choose|r: int| 0 <= r < row && #[trigger] boundary_index(line, r) == start;
    assert(boundary_index(line, r) <= s);
    let q = choose|q: int| 0 <= q < row && #[trigger] boundary_index(line, q) == s;
    assert(boundary_index(line, q) <= start);
}

proof fn lemma_furthest<T: Length>(line: WrappedLineLayout<T>, row: int)
    requires
        0 < row <= line.wrap_boundaries@.len(),
    ensures
        is_row_start(line, row, row_start(line.row_ends(), row)),
    decreases row,
{
    assert(row_start(line.row_ends(), 0) == 0);
    let s = row_start(line.row_ends(), row);
    assert(line.row_ends()[row - 1] == boundary_index(line, row - 1));
    if row > 1 {
        lemma_furthest(line, row - 1);
        let before = row_start(line.row_ends(), row - 1);
        let q = choose|q: int| 0 <= q < row - 1 && #[trigger] boundary_index(line, q) == before;
        assert(boundary_index(line, q) == before);
    }
}

/// How wide a character is drawn: up to where the next byte starts, if the boundary that
/// closes its row, or else the end of the line, does not come before the next byte; and half
/// a line height otherwise.
pub proof fn law_width<T: Length>(line: WrappedLineLayout<T>, line_height: T, i: int, start: int)
    requires
        line.row_of(i) > 0 ==> is_row_start(line, line.row_of(i), start),
    ensures
        ({
            let row = line.row_of(i);
            let row_end = if row < line.wrap_boundaries@.len() {
                boundary_index(line, row)
            } else {
                line.len as int
            };
            let row_x = if row == 0 {
                T::zero_spec()
            } else {
                line.x_for_index(start)
            };
            let left = line.x_for_index(i).minus_spec(row_x);
            let right = line.x_for_index(i + 1).minus_spec(row_x);
            line.width_at(line_height, i) == (if i < row_end {
                right.minus_spec(left)
            } else {
                line_height.half_spec()
            })
        }),
{
    let row = line.row_of(i);
    lemma_row_from(line.row_ends(), i, 0);
    if row > 0 {
        lemma_row_start(line, row, start);
    }
    if row < line.wrap_boundaries@.len() {
        assert(line.row_ends()[row] == boundary_index(line, row));
    }
}

/// The first line starts at the start of the text and at the origin of the layout. Each
/// line starts one byte, the line break, after the end of the one before it, and below it.
pub proof fn law_lines_follow_each_other<T: Length>(layout: TextLayout<T>, j: int)
    requires
        0 <= j < layout.lines@.len(),
    ensures
        layout.line_start(0) == 0,
        layout.line_origin(0) == layout.origin,
        layout.line_start(j + 1) == layout.line_start(j) + layout.lines@[j].len + 1,
        layout.line_origin(j + 1).x == layout.origin.x,
        layout.line_origin(j + 1).y == layout.line_origin(j).y.plus_spec(layout.lines@[j].height),
        layout.line_origin(j).y == layout.line_top(j),
{
}

} // verus!
