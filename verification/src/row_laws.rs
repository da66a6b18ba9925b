//! Laws on the places that an inline text reports.
use crate::geometry::{Bounds, Point};
use crate::inline::{line_boxes, row_boxes, visible_box};
use crate::length::{Length, OrderedLength, Pixels};
use vstd::prelude::*;

verus! {

/// A text of which no character is visible has no place on screen.
pub proof fn law_hidden_text_has_no_place<T: Length>(
    positions: Seq<Option<Point<T>>>,
    line_height: T,
    mask: Bounds<T>,
)
    requires
        forall|k: int| 0 <= k < positions.len() - 1 ==> #[trigger] visible_box(
            positions,
            line_height,
            mask,
            k,
        ) is None,
    ensures
        line_boxes(positions, line_height, mask) == Seq::<Bounds<T>>::empty(),
{
    lemma_no_row_boxes(positions, line_height, mask, positions.len() - 1);
}

proof fn lemma_no_row_boxes<T: Length>(
    positions: Seq<Option<Point<T>>>,
    line_height: T,
    mask: Bounds<T>,
    n: int,
)
    requires
        n <= positions.len() - 1,
        forall|k: int| 0 <= k < positions.len() - 1 ==> #[trigger] visible_box(
            positions,
            line_height,
            mask,
            k,
        ) is None,
    ensures
        row_boxes(positions, line_height, mask, n) == (
            Seq::<Bounds<T>>::empty(),
            None::<(T, Bounds<T>)>,
        ),
    decreases n,
{
    if n > 0 {
        lemma_no_row_boxes(positions, line_height, mask, n - 1);
        assert(visible_box(positions, line_height, mask, n - 1) is None);
    }
}

/// A text of which some character is visible has a place on screen.
pub proof fn law_visible_text_has_place<T: Length>(
    positions: Seq<Option<Point<T>>>,
    line_height: T,
    mask: Bounds<T>,
    k: int,
)
    requires
        0 <= k < positions.len() - 1,
        visible_box(positions, line_height, mask, k) is Some,
    ensures
        line_boxes(positions, line_height, mask).len() > 0,
{
    lemma_last_row(positions, line_height, mask, k, positions.len() - 1);
}

proof fn lemma_last_row<T: Length>(
    positions: Seq<Option<Point<T>>>,
    line_height: T,
    mask: Bounds<T>,
    k: int,
    n: int,
)
    requires
        0 <= k < n,
        visible_box(positions, line_height, mask, k) is Some,
    ensures
        row_boxes(positions, line_height, mask, n).1 is Some,
    decreases n,
{
    if k < n - 1 {
        lemma_last_row(positions, line_height, mask, k, n - 1);
    }
}

/// Whether one rectangle reaches at least as far as another on every side.
pub open spec fn covers<T: Length>(outer: Bounds<T>, inner: Bounds<T>) -> bool {
    &&& outer.origin.x.le_spec(inner.origin.x)
    &&& outer.origin.y.le_spec(inner.origin.y)
    &&& inner.bottom_right_spec().x.le_spec(outer.bottom_right_spec().x)
    &&& inner.bottom_right_spec().y.le_spec(outer.bottom_right_spec().y)
}

/// The top of what is visible of a row at `y`.
spec fn row_top<T: Length>(y: T, mask: Bounds<T>) -> T {
    y.greatest_spec(mask.origin.y)
}

/// The bottom of what is visible of a row at `y`.
spec fn row_bottom<T: Length>(y: T, line_height: T, mask: Bounds<T>) -> T {
    y.plus_spec(y.plus_spec(line_height).minus_spec(y)).least_spec(mask.bottom_right_spec().y)
}

/// What holds of the rectangle around visible characters of a row at `y`.
spec fn fits_row<T: Length>(b: Bounds<T>, y: T, line_height: T, mask: Bounds<T>) -> bool {
    &&& b.has_area_spec()
    &&& covers(mask, b)
    &&& b.size.height.le_spec(line_height)
    &&& b.origin.x.lt_spec(b.bottom_right_spec().x)
    &&& b.origin.y == row_top(y, mask)
    &&& b.origin.y.lt_spec(b.bottom_right_spec().y)
    &&& b.bottom_right_spec().y.le_spec(row_bottom(y, line_height, mask))
}

proof fn lemma_lt_le<T: OrderedLength>(a: T, b: T, c: T)
    ensures
        a.lt_spec(b) && b.le_spec(c) ==> a.lt_spec(c),
        a.le_spec(b) && b.lt_spec(c) ==> a.lt_spec(c),
        a.lt_spec(b) ==> a.le_spec(b),
        a.le_spec(a),
{
    T::law_total(a, b);
    T::law_total(b, c);
    T::law_total(a, c);
    T::law_total(b, a);
    T::law_total(a, a);
    if b.le_spec(c) && c.le_spec(a) {
        T::law_transitive(b, c, a);
    }
    if c.le_spec(a) && a.le_spec(b) {
        T::law_transitive(c, a, b);
    }
}

proof fn lemma_least_greatest<T: OrderedLength>(a: T, b: T)
    ensures
        a.least_spec(b).le_spec(a),
        a.least_spec(b).le_spec(b),
        a.le_spec(a.greatest_spec(b)),
        b.le_spec(a.greatest_spec(b)),
        a.least_spec(b) == a || a.least_spec(b) == b,
        a.greatest_spec(b) == a || a.greatest_spec(b) == b,
{
    T::law_total(a, b);
    T::law_total(a, a);
    T::law_total(b, b);
    T::law_least_greatest(a, b);
}

/// The rectangle between two corners has area if the second lies to the right of the
/// first and below it, and does not reach past the second.
proof fn lemma_from_corners<T: OrderedLength>(a: Point<T>, b: Point<T>)
    ensures
        Bounds::from_corners_spec(a, b).has_area_spec() == (a.x.lt_spec(b.x) && a.y.lt_spec(b.y)),
        a.x.lt_spec(b.x) ==> a.x.lt_spec(Bounds::from_corners_spec(a, b).bottom_right_spec().x),
        a.y.lt_spec(b.y) ==> a.y.lt_spec(Bounds::from_corners_spec(a, b).bottom_right_spec().y),
        a.x.lt_spec(b.x) ==> Bounds::from_corners_spec(a, b).bottom_right_spec().x.le_spec(b.x),
        a.y.lt_spec(b.y) ==> Bounds::from_corners_spec(a, b).bottom_right_spec().y.le_spec(b.y),
{
    T::law_difference(a.x, b.x);
    T::law_difference(a.y, b.y);
}

/// What is visible of a row is at most as high as a line.
proof fn lemma_row_height<T: OrderedLength>(y: T, line_height: T, mask: Bounds<T>)
    requires
        row_top(y, mask).lt_spec(row_bottom(y, line_height, mask)),
    ensures
        row_bottom(y, line_height, mask).minus_spec(row_top(y, mask)).le_spec(line_height),
{
    let top = row_top(y, mask);
    let bottom = row_bottom(y, line_height, mask);
    let below = y.plus_spec(line_height);
    let end = y.plus_spec(below.minus_spec(y));
    lemma_least_greatest(y, mask.origin.y);
    lemma_least_greatest(end, mask.bottom_right_spec().y);
    lemma_lt_le(y, top, bottom);
    lemma_lt_le(y, bottom, end);
    assert(y.lt_spec(end));
    // A line that is not higher than nothing would leave nothing of the row.
    T::law_total(T::zero_spec(), line_height);
    T::law_total(y, end);
    T::law_total(y, below);
    T::law_difference(y, below);
    if line_height.le_spec(T::zero_spec()) {
        T::law_plus_monotone(line_height, T::zero_spec(), y);
        T::law_plus_zero(y);
    }
    assert(y.lt_spec(below));
    T::law_transitive(bottom, end, below);
    T::law_minus_monotone(bottom, below, top);
    T::law_minus_monotone(y, top, below);
    T::law_plus_minus(y, line_height);
    T::law_transitive(
        bottom.minus_spec(top),
        below.minus_spec(top),
        below.minus_spec(y),
    );
    T::law_transitive(bottom.minus_spec(top), below.minus_spec(y), line_height);
}

proof fn lemma_visible_fits_row<T: OrderedLength>(
    positions: Seq<Option<Point<T>>>,
    line_height: T,
    mask: Bounds<T>,
    k: int,
)
    ensures
        match visible_box(positions, line_height, mask, k) {
            Some((y, shown)) => fits_row(shown, y, line_height, mask),
            None => true,
        },
{
    if let Some((y, shown)) = visible_box(positions, line_height, mask, k) {
        let pos = positions[k]->0;
        let width = match positions[k + 1] {
            Some(next) => if next.y.same_spec(pos.y) {
                next.x.minus_spec(pos.x)
            } else {
                line_height.half_spec()
            },
            None => line_height.half_spec(),
        };
        let drawn = Bounds::from_corners_spec(
            pos,
            Point { x: pos.x.plus_spec(width), y: pos.y.plus_spec(line_height) },
        );
        let edge = mask.bottom_right_spec();
        let end = drawn.bottom_right_spec();
        let a = Point {
            x: pos.x.greatest_spec(mask.origin.x),
            y: pos.y.greatest_spec(mask.origin.y),
        };
        let b = Point { x: end.x.least_spec(edge.x), y: end.y.least_spec(edge.y) };
        assert(shown == Bounds::from_corners_spec(a, b));
        lemma_from_corners(a, b);
        lemma_least_greatest(pos.x, mask.origin.x);
        lemma_least_greatest(pos.y, mask.origin.y);
        lemma_least_greatest(end.x, edge.x);
        lemma_least_greatest(end.y, edge.y);
        T::law_transitive(shown.bottom_right_spec().x, b.x, edge.x);
        T::law_transitive(shown.bottom_right_spec().y, b.y, edge.y);
        lemma_row_height(y, line_height, mask);
    }
}

proof fn lemma_union_fits_row<T: OrderedLength>(
    a: Bounds<T>,
    b: Bounds<T>,
    y: T,
    line_height: T,
    mask: Bounds<T>,
)
    requires
        fits_row(a, y, line_height, mask),
        fits_row(b, y, line_height, mask),
    ensures
        fits_row(a.union_spec(b), y, line_height, mask),
{
    let top = row_top(y, mask);
    let bottom = row_bottom(y, line_height, mask);
    let edge = mask.bottom_right_spec();
    let start = Point {
        x: a.origin.x.least_spec(b.origin.x),
        y: a.origin.y.least_spec(b.origin.y),
    };
    let end = Point {
        x: a.bottom_right_spec().x.greatest_spec(b.bottom_right_spec().x),
        y: a.bottom_right_spec().y.greatest_spec(b.bottom_right_spec().y),
    };
    let all = a.union_spec(b);
    lemma_least_greatest(a.origin.x, b.origin.x);
    lemma_least_greatest(a.origin.y, b.origin.y);
    lemma_least_greatest(a.bottom_right_spec().x, b.bottom_right_spec().x);
    lemma_least_greatest(a.bottom_right_spec().y, b.bottom_right_spec().y);
    lemma_lt_le(start.x, a.origin.x, a.bottom_right_spec().x);
    lemma_lt_le(start.x, a.bottom_right_spec().x, end.x);
    lemma_lt_le(start.y, a.bottom_right_spec().y, end.y);
    lemma_from_corners(start, end);
    T::law_transitive(all.bottom_right_spec().x, end.x, edge.x);
    T::law_transitive(all.bottom_right_spec().y, end.y, edge.y);
    T::law_transitive(all.bottom_right_spec().y, end.y, bottom);
    lemma_lt_le(top, end.y, bottom);
    lemma_row_height(y, line_height, mask);
    T::law_minus_monotone(end.y, bottom, top);
    T::law_transitive(end.y.minus_spec(top), bottom.minus_spec(top), line_height);
}

proof fn lemma_row_boxes_fit<T: OrderedLength>(
    positions: Seq<Option<Point<T>>>,
    line_height: T,
    mask: Bounds<T>,
    n: int,
)
    ensures
        ({
            let (rows, last) = row_boxes(positions, line_height, mask, n);
            &&& forall|m: int| 0 <= m < rows.len() ==> is_row_place(
                #[trigger] rows[m],
                line_height,
                mask,
            )
            &&& last is Some ==> fits_row((last->0).1, (last->0).0, line_height, mask)
        }),
    decreases n,
{
    if n > 0 {
        lemma_row_boxes_fit(positions, line_height, mask, n - 1);
        lemma_visible_fits_row(positions, line_height, mask, n - 1);
        let (rows, last) = row_boxes(positions, line_height, mask, n - 1);
        if let Some((y, shown)) = visible_box(positions, line_height, mask, n - 1) {
            if let Some((row_y, row_box)) = last {
                T::law_same(row_y, y);
                if row_y.same_spec(y) {
                    lemma_union_fits_row(row_box, shown, y, line_height, mask);
                }
            }
        }
    }
}

/// Whether a rectangle has area, lies in the mask, and is at most as high as a line.
pub open spec fn is_row_place<T: Length>(b: Bounds<T>, line_height: T, mask: Bounds<T>) -> bool {
    &&& b.has_area_spec()
    &&& covers(mask, b)
    &&& b.size.height.le_spec(line_height)
}

/// Every place that a text reports has area, lies in the mask, and is at most as high as
/// a line: it never spans two rows.
pub proof fn law_places_are_rows<T: OrderedLength>(
    positions: Seq<Option<Point<T>>>,
    line_height: T,
    mask: Bounds<T>,
    m: int,
)
    requires
        0 <= m < line_boxes(positions, line_height, mask).len(),
    ensures
        is_row_place(line_boxes(positions, line_height, mask)[m], line_height, mask),
{
    lemma_row_boxes_fit(positions, line_height, mask, positions.len() - 1);
}

/// Whether, between two lengths, a difference can be added back without loss.
pub open spec fn differences_exact<T: Length>(low: T, high: T) -> bool {
    forall|a: T, b: T| #![trigger b.minus_spec(a)]
        low.le_spec(a) && a.le_spec(b) && b.le_spec(high) ==> a.plus_spec(b.minus_spec(a)) == b
}

/// Fixed point differences are exact wherever they do not saturate.
pub proof fn law_pixel_differences_exact(low: Pixels, high: Pixels)
    requires
        high.units - low.units <= i64::MAX,
    ensures
        differences_exact(low, high),
{
}

proof fn lemma_union_covers<T: OrderedLength>(
    a: Bounds<T>,
    b: Bounds<T>,
    y: T,
    line_height: T,
    mask: Bounds<T>,
)
    requires
        fits_row(a, y, line_height, mask),
        fits_row(b, y, line_height, mask),
        differences_exact(mask.origin.x, mask.bottom_right_spec().x),
        differences_exact(mask.origin.y, mask.bottom_right_spec().y),
    ensures
        covers(a.union_spec(b), a),
        covers(a.union_spec(b), b),
{
    let start = Point {
        x: a.origin.x.least_spec(b.origin.x),
        y: a.origin.y.least_spec(b.origin.y),
    };
    let end = Point {
        x: a.bottom_right_spec().x.greatest_spec(b.bottom_right_spec().x),
        y: a.bottom_right_spec().y.greatest_spec(b.bottom_right_spec().y),
    };
    lemma_least_greatest(a.origin.x, b.origin.x);
    lemma_least_greatest(a.origin.y, b.origin.y);
    lemma_least_greatest(a.bottom_right_spec().x, b.bottom_right_spec().x);
    lemma_least_greatest(a.bottom_right_spec().y, b.bottom_right_spec().y);
    lemma_lt_le(start.x, a.origin.x, a.bottom_right_spec().x);
    lemma_lt_le(start.x, a.bottom_right_spec().x, end.x);
    lemma_lt_le(start.x, end.x, end.x);
    lemma_lt_le(start.y, a.bottom_right_spec().y, end.y);
    lemma_lt_le(start.y, end.y, end.y);
    assert(start.x.plus_spec(end.x.minus_spec(start.x)) == end.x);
    assert(start.y.plus_spec(end.y.minus_spec(start.y)) == end.y);
}

proof fn lemma_covers_transitive<T: OrderedLength>(a: Bounds<T>, b: Bounds<T>, c: Bounds<T>)
    requires
        covers(a, b),
        covers(b, c),
    ensures
        covers(a, c),
{
    T::law_transitive(a.origin.x, b.origin.x, c.origin.x);
    T::law_transitive(a.origin.y, b.origin.y, c.origin.y);
    T::law_transitive(
        c.bottom_right_spec().x,
        b.bottom_right_spec().x,
        a.bottom_right_spec().x,
    );
    T::law_transitive(
        c.bottom_right_spec().y,
        b.bottom_right_spec().y,
        a.bottom_right_spec().y,
    );
}

proof fn lemma_covered<T: OrderedLength>(
    positions: Seq<Option<Point<T>>>,
    line_height: T,
    mask: Bounds<T>,
    k: int,
    n: int,
)
    requires
        0 <= k < n,
        visible_box(positions, line_height, mask, k) is Some,
        differences_exact(mask.origin.x, mask.bottom_right_spec().x),
        differences_exact(mask.origin.y, mask.bottom_right_spec().y),
    ensures
        ({
            let (rows, last) = row_boxes(positions, line_height, mask, n);
            let shown = (visible_box(positions, line_height, mask, k)->0).1;
            &&& last is Some
            &&& covers((last->0).1, shown) || exists|m: int|
                0 <= m < rows.len() && covers(#[trigger] rows[m], shown)
            &&& (forall|i: int|
                k < i < n ==> #[trigger] visible_box(positions, line_height, mask, i) is None)
                ==> covers((last->0).1, shown)
        }),
    decreases n,
{
    let shown = (visible_box(positions, line_height, mask, k)->0).1;
    let (rows, last) = row_boxes(positions, line_height, mask, n - 1);
    let (rows_now, last_now) = row_boxes(positions, line_height, mask, n);
    lemma_row_boxes_fit(positions, line_height, mask, n - 1);
    lemma_visible_fits_row(positions, line_height, mask, n - 1);
    lemma_lt_le(shown.origin.x, shown.origin.x, shown.origin.x);
    lemma_lt_le(shown.origin.y, shown.origin.y, shown.origin.y);
    let end = shown.bottom_right_spec();
    lemma_lt_le(end.x, end.x, end.x);
    lemma_lt_le(end.y, end.y, end.y);
    assert(covers(shown, shown));
    if k < n - 1 {
        lemma_covered(positions, line_height, mask, k, n - 1);
    }
    match (visible_box(positions, line_height, mask, n - 1), last) {
        (Some((y, now)), Some((row_y, row_box))) => {
            T::law_same(row_y, y);
            if row_y.same_spec(y) {
                lemma_union_covers(row_box, now, y, line_height, mask);
                if k < n - 1 && covers(row_box, shown) {
                    lemma_covers_transitive(row_box.union_spec(now), row_box, shown);
                }
            } else if k < n - 1 {
                if covers(row_box, shown) {
                    assert(rows_now[rows.len() as int] == row_box);
                } else {
                    let m = choose|m: int| 0 <= m < rows.len() && covers(#[trigger] rows[m], shown);
                    assert(rows_now[m] == rows[m]);
                }
            }
        },
        _ => {},
    }
}

/// Every visible character is covered by a place that the text reports, and the last
/// visible one by the last place, as long as differences within the mask are exact.
pub proof fn law_visible_text_is_covered<T: OrderedLength>(
    positions: Seq<Option<Point<T>>>,
    line_height: T,
    mask: Bounds<T>,
    k: int,
)
    requires
        0 <= k < positions.len() - 1,
        visible_box(positions, line_height, mask, k) is Some,
        differences_exact(mask.origin.x, mask.bottom_right_spec().x),
        differences_exact(mask.origin.y, mask.bottom_right_spec().y),
    ensures
        ({
            let places = line_boxes(positions, line_height, mask);
            let shown = (visible_box(positions, line_height, mask, k)->0).1;
            &&& exists|m: int| 0 <= m < places.len() && covers(#[trigger] places[m], shown)
            &&& (forall|i: int|
                k < i < positions.len() - 1 ==> #[trigger] visible_box(
                    positions,
                    line_height,
                    mask,
                    i,
                ) is None) ==> covers(places.last(), shown)
        }),
{
    let n = positions.len() - 1;
    lemma_covered(positions, line_height, mask, k, n);
    let places = line_boxes(positions, line_height, mask);
    let shown = (visible_box(positions, line_height, mask, k)->0).1;
    let (rows, last) = row_boxes(positions, line_height, mask, n);
    assert(places[rows.len() as int] == (last->0).1);
    if !covers((last->0).1, shown) {
        let m = choose|m: int| 0 <= m < rows.len() && covers(#[trigger] rows[m], shown);
        assert(places[m] == rows[m]);
    }
}

} // verus!
