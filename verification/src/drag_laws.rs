//! Laws on which characters a drag selects, by coordinates alone.
use crate::geometry::Point;
use crate::length::OrderedLength;
use crate::selection::drag_selects;
use vstd::prelude::*;

verus! {

proof fn lemma_order<T: OrderedLength>(a: T, b: T)
    ensures
        a.lt_spec(b) == !b.le_spec(a),
        b.lt_spec(a) == !a.le_spec(b),
        a.le_spec(b) || b.le_spec(a),
        a.least_spec(b) == (if a.le_spec(b) { a } else { b }),
        a.greatest_spec(b) == (if a.le_spec(b) { b } else { a }),
{
    T::law_total(a, b);
    T::law_total(b, a);
    T::law_least_greatest(a, b);
}

proof fn lemma_orders<T: OrderedLength>(pos: Point<T>, bottom: T, a: Point<T>, b: Point<T>)
    ensures
        a.y.lt_spec(pos.y) == !pos.y.le_spec(a.y),
        b.y.lt_spec(pos.y) == !pos.y.le_spec(b.y),
        a.y.lt_spec(bottom) == !bottom.le_spec(a.y),
        b.y.lt_spec(bottom) == !bottom.le_spec(b.y),
        a.y.lt_spec(b.y) == !b.y.le_spec(a.y),
        b.y.lt_spec(a.y) == !a.y.le_spec(b.y),
        a.y.le_spec(b.y) || b.y.le_spec(a.y),
        a.y.least_spec(b.y) == (if a.y.le_spec(b.y) { a.y } else { b.y }),
        a.y.greatest_spec(b.y) == (if a.y.le_spec(b.y) { b.y } else { a.y }),
        a.x.le_spec(b.x) || b.x.le_spec(a.x),
        a.x.least_spec(b.x) == (if a.x.le_spec(b.x) { a.x } else { b.x }),
        a.x.greatest_spec(b.x) == (if a.x.le_spec(b.x) { b.x } else { a.x }),
{
    lemma_order(a.y, pos.y);
    lemma_order(b.y, pos.y);
    lemma_order(a.y, bottom);
    lemma_order(b.y, bottom);
    lemma_order(a.y, b.y);
    lemma_order(a.x, b.x);
}

/// A drag selects nothing of a row that lies above both of its ends, or below both.
pub proof fn law_drag_misses_other_rows<T: OrderedLength>(
    pos: Point<T>,
    char_width: T,
    a: Point<T>,
    b: Point<T>,
    line_height: T,
)
    requires
        ({
            let bottom = pos.y.plus_spec(line_height);
            ||| bottom.le_spec(a.y) && bottom.le_spec(b.y)
            ||| a.y.lt_spec(pos.y) && b.y.lt_spec(pos.y)
        }),
    ensures
        !drag_selects(pos, char_width, a, b, line_height),
{
    let bottom = pos.y.plus_spec(line_height);
    lemma_orders(pos, bottom, a, b);
}

/// A drag with both ends in a row selects a character of it if and only if the centre of
/// the character is between the ends.
pub proof fn law_drag_along_row<T: OrderedLength>(
    pos: Point<T>,
    char_width: T,
    a: Point<T>,
    b: Point<T>,
    line_height: T,
)
    requires
        pos.y.le_spec(a.y),
        a.y.lt_spec(pos.y.plus_spec(line_height)),
        pos.y.le_spec(b.y),
        b.y.lt_spec(pos.y.plus_spec(line_height)),
    ensures
        ({
            let x = pos.x.plus_spec(char_width.half_spec());
            drag_selects(pos, char_width, a, b, line_height) <==> {
                ||| a.x.le_spec(x) && x.le_spec(b.x)
                ||| b.x.le_spec(x) && x.le_spec(a.x)
            }
        }),
{
    let x = pos.x.plus_spec(char_width.half_spec());
    let bottom = pos.y.plus_spec(line_height);
    lemma_orders(pos, bottom, a, b);
    if a.x.le_spec(x) && x.le_spec(b.x) {
        T::law_transitive(a.x, x, b.x);
    }
    if b.x.le_spec(x) && x.le_spec(a.x) {
        T::law_transitive(b.x, x, a.x);
        if a.x.le_spec(b.x) {
            T::law_antisymmetric(a.x, b.x);
        }
    }
}

/// Of the row that holds the upper end of a drag, it selects what is not to the left of
/// that end.
pub proof fn law_drag_from_upper_row<T: OrderedLength>(
    pos: Point<T>,
    char_width: T,
    upper: Point<T>,
    lower: Point<T>,
    line_height: T,
)
    requires
        pos.y.le_spec(upper.y),
        upper.y.lt_spec(pos.y.plus_spec(line_height)),
        pos.y.plus_spec(line_height).le_spec(lower.y),
    ensures
        ({
            let x = pos.x.plus_spec(char_width.half_spec());
            &&& drag_selects(pos, char_width, upper, lower, line_height) <==> upper.x.le_spec(x)
            &&& drag_selects(pos, char_width, lower, upper, line_height) <==> upper.x.le_spec(x)
        }),
{
    let bottom = pos.y.plus_spec(line_height);
    lemma_orders(pos, bottom, upper, lower);
    lemma_orders(pos, bottom, lower, upper);
    if lower.y.le_spec(upper.y) {
        T::law_transitive(bottom, lower.y, upper.y);
    }
    T::law_transitive(pos.y, upper.y, lower.y);
}

/// Of the row that holds the lower end of a drag, it selects what is not to the right of
/// that end.
pub proof fn law_drag_to_lower_row<T: OrderedLength>(
    pos: Point<T>,
    char_width: T,
    upper: Point<T>,
    lower: Point<T>,
    line_height: T,
)
    requires
        upper.y.lt_spec(pos.y),
        pos.y.le_spec(lower.y),
        lower.y.lt_spec(pos.y.plus_spec(line_height)),
    ensures
        ({
            let x = pos.x.plus_spec(char_width.half_spec());
            &&& drag_selects(pos, char_width, upper, lower, line_height) <==> x.le_spec(lower.x)
            &&& drag_selects(pos, char_width, lower, upper, line_height) <==> x.le_spec(lower.x)
        }),
{
    let bottom = pos.y.plus_spec(line_height);
    lemma_orders(pos, bottom, upper, lower);
    lemma_orders(pos, bottom, lower, upper);
    lemma_order(upper.y, pos.y);
    if lower.y.le_spec(upper.y) {
        T::law_transitive(pos.y, lower.y, upper.y);
    }
    if bottom.le_spec(upper.y) {
        T::law_transitive(bottom, upper.y, lower.y);
    }
}

} // verus!
