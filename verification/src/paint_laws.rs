//! Laws on the rectangles that show a selection.
use crate::geometry::{Bounds, Point};
use crate::geometry_laws::{holds, near, near_bounds};
use crate::inline::selection_quads;
use crate::length::{Length, OrderedLength, Pixels};
use crate::row_laws::differences_exact;
use crate::selection::Selection;
use vstd::prelude::*;

verus! {

/// Where that end of a selection is which comes first in the text.
pub open spec fn first_end<T>(selection: Selection, at_start: Point<T>, at_end: Point<T>) -> Point<
    T,
> {
    if selection.start <= selection.end {
        at_start
    } else {
        at_end
    }
}

/// Where that end of a selection is which comes last in the text.
pub open spec fn last_end<T>(selection: Selection, at_start: Point<T>, at_end: Point<T>) -> Point<
    T,
> {
    if selection.start <= selection.end {
        at_end
    } else {
        at_start
    }
}

/// Whether a rectangle spans the height `y`.
pub open spec fn at_height<T: Length>(b: Bounds<T>, y: T) -> bool {
    b.origin.y.le_spec(y) && y.lt_spec(b.origin.y.plus_spec(b.size.height))
}

/// Whether a rectangle reaches from the left to the right edge of another one.
pub open spec fn full_width<T: Length>(b: Bounds<T>, bounds: Bounds<T>) -> bool {
    b.origin.x == bounds.origin.x && b.origin.x.plus_spec(b.size.width)
        == bounds.origin.x.plus_spec(bounds.size.width)
}

/// A selection is shown without a vertical gap: from the top of the row of its first end to
/// the bottom of the row of its last end, every height is spanned by some rectangle.
pub proof fn law_selection_has_no_gap<T: OrderedLength>(
    selection: Selection,
    at_start: Point<T>,
    at_end: Point<T>,
    line_height: T,
    bounds: Bounds<T>,
    y: T,
)
    requires
        ({
            let start = first_end(selection, at_start, at_end);
            let end = last_end(selection, at_start, at_end);
            &&& start.y.le_spec(y)
            &&& y.lt_spec(end.y.plus_spec(line_height))
            &&& differences_exact(start.y.plus_spec(line_height), end.y)
        }),
    ensures
        ({
            let quads = selection_quads(
                selection,
                Some(at_start),
                Some(at_end),
                line_height,
                bounds,
            );
            exists|m: int| 0 <= m < quads.len() && at_height(#[trigger] quads[m], y)
        }),
{
    let start = first_end(selection, at_start, at_end);
    let end = last_end(selection, at_start, at_end);
    let quads = selection_quads(selection, Some(at_start), Some(at_end), line_height, bounds);
    let start_bottom = start.y.plus_spec(line_height);
    T::law_same(start.y, end.y);
    T::law_plus_again(start.y, line_height);
    T::law_plus_again(end.y, line_height);
    T::law_total(y, start_bottom);
    T::law_total(y, end.y);
    T::law_total(start_bottom, end.y);
    T::law_total(start_bottom, start_bottom);
    T::law_total(end.y, y);
    T::law_total(end.y, end.y);
    if start.y == end.y || y.lt_spec(start_bottom) {
        assert(at_height(quads[0], y));
    } else if end.y.le_spec(y) {
        assert(at_height(quads[quads.len() - 1], y));
    } else {
        if end.y.le_spec(start_bottom) {
            T::law_transitive(end.y, start_bottom, y);
        }
        assert(start_bottom.plus_spec(end.y.minus_spec(start_bottom)) == end.y);
        assert(at_height(quads[1], y));
    }
}

/// Between the row of its first end and the row of its last end, a selection is shown over
/// the whole width of the text.
pub proof fn law_rows_between_are_filled<T: OrderedLength>(
    selection: Selection,
    at_start: Point<T>,
    at_end: Point<T>,
    line_height: T,
    bounds: Bounds<T>,
    y: T,
)
    requires
        T::zero_spec().le_spec(line_height),
        ({
            let start = first_end(selection, at_start, at_end);
            let end = last_end(selection, at_start, at_end);
            &&& start.y.plus_spec(line_height).le_spec(y)
            &&& y.lt_spec(end.y)
            &&& differences_exact(start.y.plus_spec(line_height), end.y)
        }),
    ensures
        ({
            let quads = selection_quads(
                selection,
                Some(at_start),
                Some(at_end),
                line_height,
                bounds,
            );
            exists|m: int|
                0 <= m < quads.len() && at_height(#[trigger] quads[m], y) && full_width(
                    quads[m],
                    bounds,
                )
        }),
{
    let start = first_end(selection, at_start, at_end);
    let end = last_end(selection, at_start, at_end);
    let quads = selection_quads(selection, Some(at_start), Some(at_end), line_height, bounds);
    let start_bottom = start.y.plus_spec(line_height);
    T::law_same(start.y, end.y);
    T::law_plus_grows(start.y, line_height);
    T::law_transitive(start.y, start_bottom, y);
    T::law_total(y, end.y);
    T::law_total(start_bottom, end.y);
    T::law_total(start_bottom, start_bottom);
    if end.y.le_spec(start_bottom) {
        T::law_transitive(end.y, start_bottom, y);
    }
    T::law_total(end.y, end.y);
    T::law_plus_again(bounds.origin.x, bounds.size.width);
    assert(start_bottom.plus_spec(end.y.minus_spec(start_bottom)) == end.y);
    assert(at_height(quads[1], y));
    assert(full_width(quads[1], bounds));
}

/// A selection within one row is shown by one rectangle, from its first end to its last, as
/// high as the row.
pub proof fn law_selection_in_row_is_one_quad<T: OrderedLength>(
    selection: Selection,
    at_start: Point<T>,
    at_end: Point<T>,
    line_height: T,
    bounds: Bounds<T>,
)
    requires
        at_start.y == at_end.y,
    ensures
        ({
            let start = first_end(selection, at_start, at_end);
            let end = last_end(selection, at_start, at_end);
            let quads = selection_quads(
                selection,
                Some(at_start),
                Some(at_end),
                line_height,
                bounds,
            );
            &&& quads.len() == 1
            &&& quads[0].origin == start
            &&& quads[0].size.width == end.x.minus_spec(start.x)
            &&& quads[0].origin.y.plus_spec(quads[0].size.height) == start.y.plus_spec(line_height)
        }),
{
    T::law_same(at_start.y, at_end.y);
    T::law_same(at_end.y, at_start.y);
    T::law_plus_again(at_start.y, line_height);
}

/// A selection over two rows that follow each other is shown by two rectangles, and one over
/// more rows by three. The first starts at its first end; the last starts at the left edge.
pub proof fn law_selection_over_rows<T: OrderedLength>(
    selection: Selection,
    at_start: Point<T>,
    at_end: Point<T>,
    line_height: T,
    bounds: Bounds<T>,
)
    requires
        at_start.y != at_end.y,
    ensures
        ({
            let start = first_end(selection, at_start, at_end);
            let end = last_end(selection, at_start, at_end);
            let quads = selection_quads(
                selection,
                Some(at_start),
                Some(at_end),
                line_height,
                bounds,
            );
            let last = quads[quads.len() - 1];
            let right = bounds.origin.x.plus_spec(bounds.size.width);
            &&& end.y.le_spec(start.y.plus_spec(line_height)) ==> quads.len() == 2
            &&& !end.y.le_spec(start.y.plus_spec(line_height)) ==> quads.len() == 3
            &&& quads[0].origin == start
            &&& quads[0].size.width == right.minus_spec(start.x)
            &&& quads[0].origin.y.plus_spec(quads[0].size.height) == start.y.plus_spec(line_height)
            &&& last.origin.x == bounds.origin.x
            &&& last.origin.y == end.y
            &&& last.size.width == end.x.minus_spec(bounds.origin.x)
            &&& last.origin.y.plus_spec(last.size.height) == end.y.plus_spec(line_height)
        }),
{
    let start = first_end(selection, at_start, at_end);
    let end = last_end(selection, at_start, at_end);
    T::law_same(start.y, end.y);
    T::law_total(start.y.plus_spec(line_height), end.y);
    T::law_plus_again(start.y, line_height);
    T::law_plus_again(end.y, line_height);
}

/// A selection of which an end cannot be placed is not shown.
pub proof fn law_unplaced_selection_is_not_shown<T: Length>(
    selection: Selection,
    at_start: Option<Point<T>>,
    at_end: Option<Point<T>>,
    line_height: T,
    bounds: Bounds<T>,
)
    requires
        at_start is None || at_end is None,
    ensures
        selection_quads(selection, at_start, at_end, line_height, bounds).len() == 0,
{
}

/// Whether some rectangle holds a point.
pub open spec fn painted(quads: Seq<Bounds<Pixels>>, p: Point<Pixels>) -> bool {
    exists|m: int| 0 <= m < quads.len() && holds(#[trigger] quads[m], p)
}

/// Which points a selection in pixels covers: on one row, those between its ends; over
/// several rows, on the first those from its first end to the right edge of the text, on the
/// last those from the left edge to its last end, and in between those from edge to edge.
pub proof fn law_selected_points(
    selection: Selection,
    at_start: Point<Pixels>,
    at_end: Point<Pixels>,
    line_height: Pixels,
    bounds: Bounds<Pixels>,
    p: Point<Pixels>,
)
    requires
        near(at_start.x),
        near(at_start.y),
        near(at_end.x),
        near(at_end.y),
        near(line_height),
        near_bounds(bounds),
    ensures
        ({
            let start = first_end(selection, at_start, at_end);
            let end = last_end(selection, at_start, at_end);
            let quads = selection_quads(
                selection,
                Some(at_start),
                Some(at_end),
                line_height,
                bounds,
            );
            let left = bounds.origin.x.units as int;
            let right = left + bounds.size.width.units;
            let h = line_height.units as int;
            painted(quads, p) <==> if start.y.units == end.y.units {
                start.x.units <= p.x.units < end.x.units && start.y.units <= p.y.units
                    < start.y.units + h
            } else {
                ||| start.x.units <= p.x.units < right && start.y.units <= p.y.units
                    < start.y.units + h
                ||| left <= p.x.units < right && start.y.units + h <= p.y.units < end.y.units
                ||| left <= p.x.units < end.x.units && end.y.units <= p.y.units < end.y.units + h
            }
        }),
{
    let start = first_end(selection, at_start, at_end);
    let end = last_end(selection, at_start, at_end);
    let quads = selection_quads(selection, Some(at_start), Some(at_end), line_height, bounds);
    let right = bounds.origin.x.units + bounds.size.width.units;
    let h = line_height.units as int;
    let last = quads.len() - 1;
    if start.y.units == end.y.units {
        assert(start.y == end.y);
        assert(quads.len() == 1);
        assert(holds(quads[0], p) <==> start.x.units <= p.x.units < end.x.units && start.y.units
            <= p.y.units < start.y.units + h);
    } else {
        assert(holds(quads[0], p) <==> start.x.units <= p.x.units < right && start.y.units
            <= p.y.units < start.y.units + h);
        assert(holds(quads[last], p) <==> bounds.origin.x.units <= p.x.units < end.x.units
            && end.y.units <= p.y.units < end.y.units + h);
        if quads.len() == 3 {
            assert(holds(quads[1], p) <==> bounds.origin.x.units <= p.x.units < right
                && start.y.units + h <= p.y.units < end.y.units);
        } else {
            assert(quads.len() == 2);
            assert(end.y.units <= start.y.units + h);
        }
    }
}

} // verus!
