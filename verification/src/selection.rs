//! Which characters a drag or a click selects.
use crate::geometry::{Bounds, Point};
use crate::length::Length;
use crate::text::{byte_len, text_len};
use vstd::prelude::*;

verus! {

/// A range of byte offsets into a text. A selection that was dragged backwards may
/// end before it starts.
#[derive(Clone, Copy, PartialEq, Eq, Debug)]
pub struct Selection {
    pub start: usize,
    pub end: usize,
}

/// Whether a y coordinate falls within the row of text whose top is `top`.
pub open spec fn in_row<T: Length>(top: T, line_height: T, y: T) -> bool {
    top.le_spec(y) && y.lt_spec(top.plus_spec(line_height))
}

/// The upper of the two ends of a drag, or the second where neither is higher.
pub open spec fn upper_end<T: Length>(a: Point<T>, b: Point<T>) -> Point<T> {
    if a.y.lt_spec(b.y) {
        a
    } else {
        b
    }
}

/// The other end than [`upper_end`].
pub open spec fn lower_end<T: Length>(a: Point<T>, b: Point<T>) -> Point<T> {
    if a.y.lt_spec(b.y) {
        b
    } else {
        a
    }
}

/// Whether the row of text whose top is `top` reaches into the vertical span of a
/// drag from `a` to `b`.
pub open spec fn row_in_drag<T: Length>(top: T, line_height: T, a: Point<T>, b: Point<T>) -> bool {
    &&& !top.plus_spec(line_height).le_spec(a.y.least_spec(b.y))
    &&& !a.y.greatest_spec(b.y).lt_spec(top)
}

/// Whether a drag from `a` to `b` selects the character at `pos`.
///
/// The character counts by its horizontal centre. On a row that holds both ends of the
/// drag it must lie between them; on the row of the upper end it must not lie to the
/// left of that end; on the row of the lower end, not to the right of it. Rows in
/// between are selected as a whole.
pub open spec fn drag_selects<T: Length>(
    pos: Point<T>,
    char_width: T,
    a: Point<T>,
    b: Point<T>,
    line_height: T,
) -> bool {
    let x = pos.x.plus_spec(char_width.half_spec());
    let upper = upper_end(a, b);
    let lower = lower_end(a, b);
    &&& row_in_drag(pos.y, line_height, a, b)
    &&& if in_row(pos.y, line_height, a.y) && in_row(pos.y, line_height, b.y) {
        a.x.least_spec(b.x).le_spec(x) && x.le_spec(a.x.greatest_spec(b.x))
    } else if in_row(pos.y, line_height, upper.y) {
        upper.x.le_spec(x)
    } else if in_row(pos.y, line_height, lower.y) {
        x.le_spec(lower.x)
    } else {
        true
    }
}

fn point_in_line<T: Length>(pos: Point<T>, line_height: T, p: Point<T>) -> (r: bool)
    ensures
        r == in_row(pos.y, line_height, p.y),
{
    pos.y.le(p.y) && p.y.lt(pos.y.plus(line_height))
}

/// Whether the character at `pos` is selected by a drag from `selection_start` to
/// `selection_end`, considering selections over several lines.
pub fn point_in_text_selection<T: Length>(
    pos: Point<T>,
    char_width: T,
    selection_start: Point<T>,
    selection_end: Point<T>,
    line_height: T,
) -> (r: bool)
    ensures
        r == drag_selects(pos, char_width, selection_start, selection_end, line_height),
{
    let top = selection_start.y.least(selection_end.y);
    let bottom = selection_start.y.greatest(selection_end.y);
    let x = pos.x.plus(char_width.half());

    // Out of the vertical bounds
    if pos.y.plus(line_height).le(top) || bottom.lt(pos.y) {
        return false;
    }
    // Treat the selection as single-line when both drag points fall within the
    // same rendered line, even if their y coordinates differ inside that line.

    if point_in_line(pos, line_height, selection_start) && point_in_line(
        pos,
        line_height,
        selection_end,
    ) {
        let left = selection_start.x.least(selection_end.x);
        let right = selection_start.x.greatest(selection_end.x);
        return left.le(x) && x.le(right);
    }
    let (top_point, bottom_point) = if selection_start.y.lt(selection_end.y) {
        (selection_start, selection_end)
    } else {
        (selection_end, selection_start)
    };
    if point_in_line(pos, line_height, top_point) {
        top_point.x.le(x)
    } else if point_in_line(pos, line_height, bottom_point) {
        x.le(bottom_point.x)
    } else {
        true
    }
}

/// What a multiple click selects.
#[derive(Clone, Copy, PartialEq, Eq, Debug)]
pub enum TextViewMultiClickKind {
    /// The word under the pointer.
    Word,
    /// The paragraph under the pointer.
    Paragraph,
}

/// What the text layout finds under the pointer.
#[derive(Clone, Copy, PartialEq, Eq, Debug)]
pub struct TextHit {
    /// The byte offset of the character.
    pub offset: usize,
    /// The word around that offset, if there is one.
    pub word: Option<Selection>,
}

/// What a multiple click at `pos` selects.
pub open spec fn multi_click_selects<T: Length>(
    text: Seq<char>,
    hit: Option<TextHit>,
    bounds: Bounds<T>,
    pos: Point<T>,
    kind: TextViewMultiClickKind,
) -> Option<Selection> {
    if !bounds.contains_spec(pos) || hit is None {
        None
    } else {
        match kind {
            TextViewMultiClickKind::Word => hit->0.word,
            TextViewMultiClickKind::Paragraph => if text.len() == 0 {
                None
            } else {
                Some(Selection { start: 0, end: byte_len(text) as usize })
            },
        }
    }
}

/// The byte range that a multiple click at `pos` selects in `text`, which is drawn
/// within `bounds`. `hit` is what the text layout finds at `pos`.
pub fn selection_for_multi_click<T: Length>(
    text: &str,
    hit: Option<TextHit>,
    bounds: Bounds<T>,
    pos: Point<T>,
    kind: TextViewMultiClickKind,
) -> (r: Option<Selection>)
    ensures
        r == multi_click_selects(text@, hit, bounds, pos, kind),
        kind is Paragraph && r is Some ==> r->0.end == byte_len(text@),
        byte_len(text@) <= usize::MAX,
{
    let text_end = text_len(text);
    if !bounds.contains(pos) {
        return None;
    }
    match hit {
        None => None,
        Some(found) => match kind {
            TextViewMultiClickKind::Word => found.word,
            // A paragraph that embeds an inline image is split into several runs, so
            // this selects the run on the clicked side of the image only.
            TextViewMultiClickKind::Paragraph => if text.is_empty() {
                None
            } else {
                Some(Selection { start: 0, end: text_end })
            },
        },
    }
}

} // verus!
