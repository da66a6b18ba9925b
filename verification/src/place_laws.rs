//! Laws on how far the places that an inline text reports reach.
use crate::geometry::{Bounds, Point};
use crate::inline::{line_boxes, row_boxes, visible_box};
use crate::length::{Length, OrderedLength};
use crate::row_laws::differences_exact;
use vstd::prelude::*;

verus! {

/// How wide the `k`-th character is drawn: up to the next one if that is on the same row,
/// and half as wide as the row is high otherwise.
pub open spec fn drawn_width<T: Length>(
    positions: Seq<Option<Point<T>>>,
    line_height: T,
    k: int,
) -> T {
    if positions[k + 1] is Some && positions[k + 1]->0.y == positions[k]->0.y {
        positions[k + 1]->0.x.minus_spec(positions[k]->0.x)
    } else {
        line_height.half_spec()
    }
}

/// The left edge of the visible part of the `k`-th character.
pub open spec fn shown_left<T: Length>(
    positions: Seq<Option<Point<T>>>,
    mask: Bounds<T>,
    k: int,
) -> T {
    let x = positions[k]->0.x;
    if x.le_spec(mask.origin.x) {
        mask.origin.x
    } else {
        x
    }
}

/// The right edge of the visible part of the `k`-th character.
pub open spec fn shown_right<T: Length>(
    positions: Seq<Option<Point<T>>>,
    line_height: T,
    mask: Bounds<T>,
    k: int,
) -> T {
    let end = positions[k]->0.x.plus_spec(drawn_width(positions, line_height, k));
    let edge = mask.origin.x.plus_spec(mask.size.width);
    if end.le_spec(edge) {
        end
    } else {
        edge
    }
}

/// The top edge of the visible part of the `k`-th character.
pub open spec fn shown_top<T: Length>(
    positions: Seq<Option<Point<T>>>,
    mask: Bounds<T>,
    k: int,
) -> T {
    let y = positions[k]->0.y;
    if y.le_spec(mask.origin.y) {
        mask.origin.y
    } else {
        y
    }
}

/// The bottom edge of the visible part of the `k`-th character.
pub open spec fn shown_bottom<T: Length>(
    positions: Seq<Option<Point<T>>>,
    line_height: T,
    mask: Bounds<T>,
    k: int,
) -> T {
    let end = positions[k]->0.y.plus_spec(line_height);
    let edge = mask.origin.y.plus_spec(mask.size.height);
    if end.le_spec(edge) {
        end
    } else {
        edge
    }
}

/// Whether the `k`-th character is placed and some of it is visible.
pub open spec fn is_shown<T: Length>(
    positions: Seq<Option<Point<T>>>,
    line_height: T,
    mask: Bounds<T>,
    k: int,
) -> bool {
    &&& positions[k] is Some
    &&& shown_left(positions, mask, k).lt_spec(shown_right(positions, line_height, mask, k))
    &&& shown_top(positions, mask, k).lt_spec(shown_bottom(positions, line_height, mask, k))
}

/// The last visible one of the first `n` characters; negative if none is visible.
pub open spec fn last_shown<T: Length>(
    positions: Seq<Option<Point<T>>>,
    line_height: T,
    mask: Bounds<T>,
    n: int,
) -> int
    decreases n,
{
    if n <= 0 {
        -1
    } else if is_shown(positions, line_height, mask, n - 1) {
        n - 1
    } else {
        last_shown(positions, line_height, mask, n - 1)
    }
}

/// Whether the `k`-th character is visible and the visible character before it, if there
/// is one, is on another row.
pub open spec fn begins_place<T: Length>(
    positions: Seq<Option<Point<T>>>,
    line_height: T,
    mask: Bounds<T>,
    k: int,
) -> bool {
    let before = last_shown(positions, line_height, mask, k);
    &&& is_shown(positions, line_height, mask, k)
    &&& before < 0 || positions[before]->0.y != positions[k]->0.y
}

/// How many rows the visible ones of the first `n` characters take up.
pub open spec fn places_begun<T: Length>(
    positions: Seq<Option<Point<T>>>,
    line_height: T,
    mask: Bounds<T>,
    n: int,
) -> int
    decreases n,
{
    if n <= 0 {
        0
    } else {
        places_begun(positions, line_height, mask, n - 1) + if begins_place(
            positions,
            line_height,
            mask,
            n - 1,
        ) {
            1int
        } else {
            0
        }
    }
}

/// Which row the `k`-th character is on, among those of which something is visible.
pub open spec fn place_of<T: Length>(
    positions: Seq<Option<Point<T>>>,
    line_height: T,
    mask: Bounds<T>,
    k: int,
) -> int {
    places_begun(positions, line_height, mask, k + 1) - 1
}

/// Whether the `k`-th character is one of the first `n`, visible, and on the `m`-th row.
pub open spec fn is_at<T: Length>(
    positions: Seq<Option<Point<T>>>,
    line_height: T,
    mask: Bounds<T>,
    n: int,
    m: int,
    k: int,
) -> bool {
    &&& 0 <= k < n
    &&& is_shown(positions, line_height, mask, k)
    &&& place_of(positions, line_height, mask, k) == m
}

/// Whether a rectangle reaches from the leftmost to the rightmost edge of what is visible
/// of the `m`-th row, for the first `n` characters, and is as high as that row.
pub open spec fn is_tight<T: Length>(
    positions: Seq<Option<Point<T>>>,
    line_height: T,
    mask: Bounds<T>,
    n: int,
    m: int,
    b: Bounds<T>,
) -> bool {
    let right = b.origin.x.plus_spec(b.size.width);
    let bottom = b.origin.y.plus_spec(b.size.height);
    &&& forall|k: int| #[trigger]
        is_at(positions, line_height, mask, n, m, k) ==> {
            &&& b.origin.x.le_spec(shown_left(positions, mask, k))
            &&& shown_right(positions, line_height, mask, k).le_spec(right)
            &&& b.origin.y == shown_top(positions, mask, k)
            &&& bottom == shown_bottom(positions, line_height, mask, k)
        }
    &&& exists|k: int| #[trigger]
        is_at(positions, line_height, mask, n, m, k) && b.origin.x == shown_left(positions, mask, k)
    &&& exists|k: int| #[trigger]
        is_at(positions, line_height, mask, n, m, k) && right == shown_right(
            positions,
            line_height,
            mask,
            k,
        )
}

proof fn lemma_order<T: OrderedLength>(a: T, b: T, c: T)
    ensures
        a.le_spec(a),
        a.lt_spec(b) == !b.le_spec(a),
        a.le_spec(b) || b.le_spec(a),
        a.le_spec(b) && b.le_spec(a) ==> a == b,
        a.le_spec(b) && b.le_spec(c) ==> a.le_spec(c),
{
    T::law_total(a, a);
    T::law_total(a, b);
    if a.le_spec(b) && b.le_spec(a) {
        T::law_antisymmetric(a, b);
    }
    if a.le_spec(b) && b.le_spec(c) {
        T::law_transitive(a, b, c);
    }
}

/// What is visible of a character lies between its visible edges.
proof fn lemma_visible_box<T: OrderedLength>(
    positions: Seq<Option<Point<T>>>,
    line_height: T,
    mask: Bounds<T>,
    k: int,
)
    requires
        differences_exact(mask.origin.x, mask.origin.x.plus_spec(mask.size.width)),
        differences_exact(mask.origin.y, mask.origin.y.plus_spec(mask.size.height)),
    ensures
        is_shown(positions, line_height, mask, k) <==> visible_box(
            positions,
            line_height,
            mask,
            k,
        ) is Some,
        is_shown(positions, line_height, mask, k) ==> ({
            let (y, b) = visible_box(positions, line_height, mask, k)->0;
            &&& y == positions[k]->0.y
            &&& b.origin.x == shown_left(positions, mask, k)
            &&& b.origin.y == shown_top(positions, mask, k)
            &&& b.origin.x.plus_spec(b.size.width) == shown_right(positions, line_height, mask, k)
            &&& b.origin.y.plus_spec(b.size.height) == shown_bottom(
                positions,
                line_height,
                mask,
                k,
            )
            &&& mask.origin.x.le_spec(b.origin.x)
            &&& b.origin.x.le_spec(b.origin.x.plus_spec(b.size.width))
            &&& b.origin.x.plus_spec(b.size.width).le_spec(
                mask.origin.x.plus_spec(mask.size.width),
            )
            &&& mask.origin.y.le_spec(b.origin.y)
            &&& b.origin.y.le_spec(b.origin.y.plus_spec(b.size.height))
            &&& b.origin.y.plus_spec(b.size.height).le_spec(
                mask.origin.y.plus_spec(mask.size.height),
            )
        }),
{
    if positions[k] is Some {
        let pos = positions[k]->0;
        if positions[k + 1] is Some {
            T::law_same(positions[k + 1]->0.y, pos.y);
        }
        let width = drawn_width(positions, line_height, k);
        let end = Point { x: pos.x.plus_spec(width), y: pos.y.plus_spec(line_height) };
        let drawn = Bounds::from_corners_spec(pos, end);
        T::law_plus_again(pos.x, width);
        T::law_plus_again(pos.y, line_height);
        assert(drawn.bottom_right_spec() == end);
        let edge = mask.bottom_right_spec();
        T::law_least_greatest(pos.x, mask.origin.x);
        T::law_least_greatest(pos.y, mask.origin.y);
        T::law_least_greatest(end.x, edge.x);
        T::law_least_greatest(end.y, edge.y);
        let a = Point {
            x: shown_left(positions, mask, k),
            y: shown_top(positions, mask, k),
        };
        let b = Point {
            x: shown_right(positions, line_height, mask, k),
            y: shown_bottom(positions, line_height, mask, k),
        };
        assert(drawn.intersect_spec(mask) == Bounds::from_corners_spec(a, b));
        T::law_difference(a.x, b.x);
        T::law_difference(a.y, b.y);
        lemma_order(mask.origin.x, pos.x, pos.x);
        lemma_order(mask.origin.y, pos.y, pos.y);
        lemma_order(edge.x, end.x, end.x);
        lemma_order(edge.y, end.y, end.y);
        lemma_order(b.x, a.x, a.x);
        lemma_order(b.y, a.y, a.y);
        lemma_order(a.x, b.x, b.x);
        lemma_order(a.y, b.y, b.y);
        if is_shown(positions, line_height, mask, k) {
            assert(a.x.plus_spec(b.x.minus_spec(a.x)) == b.x);
            assert(a.y.plus_spec(b.y.minus_spec(a.y)) == b.y);
        }
    }
}

/// The places of the first `n` characters, the last row included.
spec fn places_up_to<T: Length>(
    positions: Seq<Option<Point<T>>>,
    line_height: T,
    mask: Bounds<T>,
    n: int,
) -> Seq<Bounds<T>> {
    let (rows, last) = row_boxes(positions, line_height, mask, n);
    match last {
        Some((_, b)) => rows.push(b),
        None => rows,
    }
}

proof fn lemma_begun<T: Length>(
    positions: Seq<Option<Point<T>>>,
    line_height: T,
    mask: Bounds<T>,
    n: int,
)
    ensures
        last_shown(positions, line_height, mask, n) < n || n < 0,
        places_begun(positions, line_height, mask, n) >= 0,
        last_shown(positions, line_height, mask, n) < 0 ==> places_begun(
            positions,
            line_height,
            mask,
            n,
        ) == 0,
        last_shown(positions, line_height, mask, n) >= 0 ==> ({
            let last = last_shown(positions, line_height, mask, n);
            &&& is_at(
                positions,
                line_height,
                mask,
                n,
                places_begun(positions, line_height, mask, n) - 1,
                last,
            )
            &&& places_begun(positions, line_height, mask, n) > 0
        }),
        forall|k: int, m: int| #[trigger]
            is_at(positions, line_height, mask, n, m, k) ==> 0 <= m < places_begun(
                positions,
                line_height,
                mask,
                n,
            ),
        forall|k: int| #[trigger]
            is_at(
                positions,
                line_height,
                mask,
                n,
                places_begun(positions, line_height, mask, n) - 1,
                k,
            ) ==> positions[k]->0.y == positions[last_shown(positions, line_height, mask, n)]->0.y,
    decreases n,
{
    if n > 0 {
        lemma_begun(positions, line_height, mask, n - 1);
        let begun = places_begun(positions, line_height, mask, n - 1);
        let now = places_begun(positions, line_height, mask, n);
        assert forall|k: int, m: int| #[trigger]
            is_at(positions, line_height, mask, n, m, k) implies 0 <= m < now by {
            if k < n - 1 {
                assert(is_at(positions, line_height, mask, n - 1, m, k));
            }
        }
        assert forall|k: int| #[trigger]
            is_at(positions, line_height, mask, n, now - 1, k) implies positions[k]->0.y
            == positions[last_shown(positions, line_height, mask, n)]->0.y by {
            if k < n - 1 {
                assert(is_at(positions, line_height, mask, n - 1, now - 1, k));
                assert(now == begun);
            }
        }
        let last = last_shown(positions, line_height, mask, n);
        if 0 <= last < n - 1 {
            assert(is_at(positions, line_height, mask, n - 1, begun - 1, last));
        }
    }
}

proof fn lemma_tight_later<T: Length>(
    positions: Seq<Option<Point<T>>>,
    line_height: T,
    mask: Bounds<T>,
    n: int,
    m: int,
    b: Bounds<T>,
)
    requires
        n > 0,
        is_tight(positions, line_height, mask, n - 1, m, b),
        !is_at(positions, line_height, mask, n, m, n - 1),
    ensures
        is_tight(positions, line_height, mask, n, m, b),
{
    let right = b.origin.x.plus_spec(b.size.width);
    assert forall|k: int| #[trigger] is_at(positions, line_height, mask, n, m, k) implies {
        &&& b.origin.x.le_spec(shown_left(positions, mask, k))
        &&& shown_right(positions, line_height, mask, k).le_spec(right)
        &&& b.origin.y == shown_top(positions, mask, k)
        &&& b.origin.y.plus_spec(b.size.height) == shown_bottom(positions, line_height, mask, k)
    } by {
        assert(is_at(positions, line_height, mask, n - 1, m, k));
    }
    let l = choose|k: int| #[trigger]
        is_at(positions, line_height, mask, n - 1, m, k) && b.origin.x == shown_left(
            positions,
            mask,
            k,
        );
    assert(is_at(positions, line_height, mask, n, m, l));
    let r = choose|k: int| #[trigger]
        is_at(positions, line_height, mask, n - 1, m, k) && right == shown_right(
            positions,
            line_height,
            mask,
            k,
        );
    assert(is_at(positions, line_height, mask, n, m, r));
}

proof fn lemma_tight_union<T: OrderedLength>(
    positions: Seq<Option<Point<T>>>,
    line_height: T,
    mask: Bounds<T>,
    n: int,
    m: int,
    b: Bounds<T>,
)
    requires
        n > 0,
        is_tight(positions, line_height, mask, n - 1, m, b),
        is_at(positions, line_height, mask, n, m, n - 1),
        forall|k: int| #[trigger]
            is_at(positions, line_height, mask, n - 1, m, k) ==> positions[k]->0.y
                == positions[n - 1]->0.y,
        differences_exact(mask.origin.x, mask.origin.x.plus_spec(mask.size.width)),
        differences_exact(mask.origin.y, mask.origin.y.plus_spec(mask.size.height)),
    ensures
        is_tight(
            positions,
            line_height,
            mask,
            n,
            m,
            b.union_spec((visible_box(positions, line_height, mask, n - 1)->0).1),
        ),
{
    let right = b.origin.x.plus_spec(b.size.width);
    let bottom = b.origin.y.plus_spec(b.size.height);
    let l = choose|k: int| #[trigger]
        is_at(positions, line_height, mask, n - 1, m, k) && b.origin.x == shown_left(
            positions,
            mask,
            k,
        );
    let r = choose|k: int| #[trigger]
        is_at(positions, line_height, mask, n - 1, m, k) && right == shown_right(
            positions,
            line_height,
            mask,
            k,
        );
    lemma_visible_box(positions, line_height, mask, l);
    lemma_visible_box(positions, line_height, mask, r);
    lemma_visible_box(positions, line_height, mask, n - 1);
    let now = (visible_box(positions, line_height, mask, n - 1)->0).1;
    let now_right = now.origin.x.plus_spec(now.size.width);
    let now_bottom = now.origin.y.plus_spec(now.size.height);
    assert(b.origin.y == now.origin.y);
    assert(bottom == now_bottom);
    T::law_least_greatest(b.origin.x, now.origin.x);
    T::law_least_greatest(b.origin.y, now.origin.y);
    T::law_least_greatest(right, now_right);
    T::law_least_greatest(bottom, now_bottom);
    let x0 = b.origin.x.least_spec(now.origin.x);
    let x1 = right.greatest_spec(now_right);
    lemma_order(b.origin.x, now.origin.x, now_right);
    lemma_order(now.origin.x, b.origin.x, now_right);
    lemma_order(right, now_right, now_right);
    lemma_order(now_right, right, right);
    lemma_order(x0, now.origin.x, now_right);
    lemma_order(x0, now_right, x1);
    assert(x0.plus_spec(x1.minus_spec(x0)) == x1);
    assert(now.origin.y.plus_spec(now_bottom.minus_spec(now.origin.y)) == now_bottom);
    let all = b.union_spec(now);
    assert(all.origin.x == x0);
    assert(all.origin.x.plus_spec(all.size.width) == x1);
    assert(all.origin.y == now.origin.y);
    assert(all.origin.y.plus_spec(all.size.height) == now_bottom);
    assert forall|k: int| #[trigger] is_at(positions, line_height, mask, n, m, k) implies {
        &&& all.origin.x.le_spec(shown_left(positions, mask, k))
        &&& shown_right(positions, line_height, mask, k).le_spec(x1)
        &&& all.origin.y == shown_top(positions, mask, k)
        &&& now_bottom == shown_bottom(positions, line_height, mask, k)
    } by {
        if k < n - 1 {
            assert(is_at(positions, line_height, mask, n - 1, m, k));
            lemma_order(x0, b.origin.x, shown_left(positions, mask, k));
            lemma_order(shown_right(positions, line_height, mask, k), right, x1);
        }
    }
    assert(is_at(positions, line_height, mask, n, m, l));
    assert(is_at(positions, line_height, mask, n, m, r));
    assert(x0 == shown_left(positions, mask, l) || x0 == shown_left(positions, mask, n - 1));
    assert(x1 == shown_right(positions, line_height, mask, r) || x1 == shown_right(
        positions,
        line_height,
        mask,
        n - 1,
    ));
}

proof fn lemma_places_tight<T: OrderedLength>(
    positions: Seq<Option<Point<T>>>,
    line_height: T,
    mask: Bounds<T>,
    n: int,
)
    requires
        differences_exact(mask.origin.x, mask.origin.x.plus_spec(mask.size.width)),
        differences_exact(mask.origin.y, mask.origin.y.plus_spec(mask.size.height)),
    ensures
        ({
            let (rows, last) = row_boxes(positions, line_height, mask, n);
            let places = places_up_to(positions, line_height, mask, n);
            let at = last_shown(positions, line_height, mask, n);
            &&& last is Some <==> at >= 0
            &&& last is None ==> rows.len() == 0
            &&& last is Some ==> (last->0).0 == positions[at]->0.y
            &&& places.len() == places_begun(positions, line_height, mask, n)
            &&& forall|m: int|
                0 <= m < places.len() ==> is_tight(
                    positions,
                    line_height,
                    mask,
                    n,
                    m,
                    #[trigger] places[m],
                )
        }),
    decreases n,
{
    if n > 0 {
        lemma_places_tight(positions, line_height, mask, n - 1);
        lemma_begun(positions, line_height, mask, n - 1);
        lemma_begun(positions, line_height, mask, n);
        lemma_visible_box(positions, line_height, mask, n - 1);
        let (rows, last) = row_boxes(positions, line_height, mask, n - 1);
        let before = places_up_to(positions, line_height, mask, n - 1);
        let places = places_up_to(positions, line_height, mask, n);
        let begun = places_begun(positions, line_height, mask, n - 1);
        let shown = is_shown(positions, line_height, mask, n - 1);
        let begins = begins_place(positions, line_height, mask, n - 1);
        if last is Some && shown {
            T::law_same((last->0).0, positions[n - 1]->0.y);
        }
        if shown && !begins {
            assert(last is Some);
            let b = (last->0).1;
            assert(before[begun - 1] == b);
            lemma_tight_union(positions, line_height, mask, n, begun - 1, b);
        } else if begins {
            let now = (visible_box(positions, line_height, mask, n - 1)->0).1;
            assert(places =~= before.push(now));
            assert(is_at(positions, line_height, mask, n, begun, n - 1));
            assert forall|k: int| #[trigger]
                is_at(positions, line_height, mask, n, begun, k) implies k == n - 1 by {
                if k < n - 1 {
                    assert(is_at(positions, line_height, mask, n - 1, begun, k));
                }
            }
            lemma_order(now.origin.x, now.origin.x, now.origin.x);
            let right = now.origin.x.plus_spec(now.size.width);
            lemma_order(right, right, right);
            assert(is_tight(positions, line_height, mask, n, begun, now));
        }
        assert forall|m: int| 0 <= m < places.len() implies is_tight(
            positions,
            line_height,
            mask,
            n,
            m,
            #[trigger] places[m],
        ) by {
            if !is_at(positions, line_height, mask, n, m, n - 1) {
                assert(places[m] == before[m]);
                lemma_tight_later(positions, line_height, mask, n, m, places[m]);
            }
        }
    }
}

/// A text reports one place for each row of which something is visible, in the order of
/// the text. The place is the tight union of the visible parts of the characters of that
/// row: none sticks out of it, its left and right edges are those of some of them, and it
/// is as high as they are.
pub proof fn law_places_are_tight<T: OrderedLength>(
    positions: Seq<Option<Point<T>>>,
    line_height: T,
    mask: Bounds<T>,
    m: int,
)
    requires
        0 <= m < line_boxes(positions, line_height, mask).len(),
        differences_exact(mask.origin.x, mask.origin.x.plus_spec(mask.size.width)),
        differences_exact(mask.origin.y, mask.origin.y.plus_spec(mask.size.height)),
    ensures
        line_boxes(positions, line_height, mask).len() == places_begun(
            positions,
            line_height,
            mask,
            positions.len() - 1,
        ),
        is_tight(
            positions,
            line_height,
            mask,
            positions.len() - 1,
            m,
            line_boxes(positions, line_height, mask)[m],
        ),
{
    lemma_places_tight(positions, line_height, mask, positions.len() - 1);
}

/// Every visible character is on the row of one of the places.
pub proof fn law_shown_character_has_place<T: OrderedLength>(
    positions: Seq<Option<Point<T>>>,
    line_height: T,
    mask: Bounds<T>,
    k: int,
)
    requires
        0 <= k < positions.len() - 1,
        is_shown(positions, line_height, mask, k),
        differences_exact(mask.origin.x, mask.origin.x.plus_spec(mask.size.width)),
        differences_exact(mask.origin.y, mask.origin.y.plus_spec(mask.size.height)),
    ensures
        ({
            let places = line_boxes(positions, line_height, mask);
            let m = place_of(positions, line_height, mask, k);
            &&& 0 <= m < places.len()
            &&& places[m].origin.x.le_spec(shown_left(positions, mask, k))
            &&& shown_right(positions, line_height, mask, k).le_spec(
                places[m].origin.x.plus_spec(places[m].size.width),
            )
            &&& places[m].origin.y == shown_top(positions, mask, k)
            &&& places[m].origin.y.plus_spec(places[m].size.height) == shown_bottom(
                positions,
                line_height,
                mask,
                k,
            )
        }),
{
    let n = positions.len() - 1;
    let m = place_of(positions, line_height, mask, k);
    lemma_places_tight(positions, line_height, mask, n);
    lemma_begun(positions, line_height, mask, n);
    assert(is_at(positions, line_height, mask, n, m, k));
    let places = line_boxes(positions, line_height, mask);
    assert(places =~= places_up_to(positions, line_height, mask, n));
    assert(is_tight(positions, line_height, mask, n, m, places[m]));
}

/// No place reaches further to the left than all characters, nor further to the right.
pub proof fn law_places_stay_beside_text<T: OrderedLength>(
    positions: Seq<Option<Point<T>>>,
    line_height: T,
    mask: Bounds<T>,
    low: T,
    high: T,
    m: int,
)
    requires
        0 <= m < line_boxes(positions, line_height, mask).len(),
        differences_exact(mask.origin.x, mask.origin.x.plus_spec(mask.size.width)),
        differences_exact(mask.origin.y, mask.origin.y.plus_spec(mask.size.height)),
        forall|k: int| #![trigger positions[k]]
            0 <= k < positions.len() - 1 && positions[k] is Some ==> low.le_spec(
                positions[k]->0.x,
            ) && positions[k]->0.x.plus_spec(drawn_width(positions, line_height, k)).le_spec(high),
    ensures
        ({
            let place = line_boxes(positions, line_height, mask)[m];
            &&& low.le_spec(place.origin.x)
            &&& mask.origin.x.le_spec(place.origin.x)
            &&& place.origin.x.plus_spec(place.size.width).le_spec(high)
            &&& place.origin.x.plus_spec(place.size.width).le_spec(
                mask.origin.x.plus_spec(mask.size.width),
            )
        }),
{
    law_places_are_tight(positions, line_height, mask, m);
    let n = positions.len() - 1;
    let place = line_boxes(positions, line_height, mask)[m];
    let right = place.origin.x.plus_spec(place.size.width);
    let edge = mask.origin.x.plus_spec(mask.size.width);
    let l = choose|k: int| #[trigger]
        is_at(positions, line_height, mask, n, m, k) && place.origin.x == shown_left(
            positions,
            mask,
            k,
        );
    let r = choose|k: int| #[trigger]
        is_at(positions, line_height, mask, n, m, k) && right == shown_right(
            positions,
            line_height,
            mask,
            k,
        );
    lemma_order(positions[l]->0.x, mask.origin.x, mask.origin.x);
    lemma_order(mask.origin.x, positions[l]->0.x, positions[l]->0.x);
    lemma_order(low, positions[l]->0.x, place.origin.x);
    lemma_order(place.origin.x, place.origin.x, place.origin.x);
    let end = positions[r]->0.x.plus_spec(drawn_width(positions, line_height, r));
    lemma_order(end, edge, edge);
    lemma_order(edge, end, high);
    lemma_order(right, end, high);
}

} // verus!
