//! Laws on what calls return and change.
use crate::geometry::{Bounds, Point};
use crate::inline::{
    link_at, CursorStyle, Inline, InlineState, MouseDownEvent, MultiClickSelection, PaintFrame,
    MultiClick, PaintPlan, TextView,
};
use crate::layout::TextLayout;
use crate::laws::{law_first_link_wins, lays_out, rows_fit};
use crate::length::{Length, OrderedLength};
use crate::paint_laws::{
    at_height, first_end, full_width, last_end, law_rows_between_are_filled,
    law_selection_has_no_gap,
};
use crate::place_laws::{is_tight, law_places_are_tight};
use crate::row_laws::differences_exact;
use crate::scan::{scan_selection, Drag};
use crate::scan_laws::{law_scan_spans_selected_characters, selects_character};
use crate::selection::{
    selection_for_multi_click, Selection, TextHit, TextViewMultiClickKind,
};
use crate::text::{byte_len, offset_of, text_slice};
use crate::view_laws::{
    law_all_selected_is_whole_text, law_drag_selects_scan, law_multi_click_decides,
    law_press_selects,
};
use std::ops::Range;
use vstd::prelude::*;

verus! {

/// Whether a link covers the character at an offset.
pub open spec fn is_linked<M>(
    links: Seq<(Range<usize>, M)>,
    offset: Option<usize>,
    j: int,
) -> bool {
    &&& offset is Some
    &&& 0 <= j < links.len()
    &&& links[j].0.start <= offset->0 < links[j].0.end
}

/// Whether a link is the first of some that covers the character at an offset.
pub open spec fn is_first_link<M>(
    links: Seq<(Range<usize>, M)>,
    offset: Option<usize>,
    j: int,
) -> bool {
    is_linked(links, offset, j) && forall|i: int| #[trigger]
        is_linked(links, offset, i) ==> j <= i
}

proof fn lemma_first_link<M>(links: Seq<(Range<usize>, M)>, offset: Option<usize>)
    ensures
        match offset {
            Some(_) => {
                &&& link_at(links, offset) is Some <==> exists|j: int| #[trigger]
                    is_linked(links, offset, j)
                &&& forall|j: int| #[trigger]
                    is_linked(links, offset, j) && is_first_link(links, offset, j)
                        ==> link_at(links, offset) == Some(links[j].1)
            },
            None => link_at(links, offset) is None,
        },
{
    if let Some(o) = offset {
        law_first_link_wins(links, o);
        if link_at(links, offset) is Some {
            let j = choose|j: int| #![trigger links[j]]
                0 <= j < links.len() && links[j].0.start <= o < links[j].0.end;
            assert(is_linked(links, offset, j));
        }
        assert forall|j: int| #[trigger]
            is_linked(links, offset, j) && is_first_link(
                links,
                offset,
                j,
            ) implies link_at(links, offset) == Some(links[j].1) by {
            assert forall|i: int| #![trigger links[i]] 0 <= i < j implies !(links[i].0.start <= o
                < links[i].0.end) by {
                assert(!is_linked(links, offset, i));
            }
        }
    }
}

/// A release of a mouse button over a link opens the first link there, unless text is
/// selected. A release elsewhere opens none.
pub proof fn law_release_opens_link<M, H>(
    inline: &Inline<M, H>,
    is_bubble_phase: bool,
    is_hovered: bool,
    has_selection: bool,
    offset: Option<usize>,
    r: Option<&M>,
)
    requires
        call_ensures(
            Inline::<M, H>::mouse_up,
            (inline, is_bubble_phase, is_hovered, has_selection, offset),
            r,
        ),
    ensures
        r is Some <==> is_bubble_phase && is_hovered && !has_selection && exists|j: int| #[trigger]
            is_linked(inline.links@, offset, j),
        forall|j: int| #[trigger]
            is_linked(inline.links@, offset, j) && is_first_link(inline.links@, offset, j)
                && r is Some ==> *(r->0) == inline.links@[j].1,
{
    lemma_first_link(inline.links@, offset);
}

/// A move of the pointer over the text is remembered, and reported if and only if the
/// pointer is over another character than before. Any other move changes nothing.
pub proof fn law_move_follows_pointer<M, H>(
    hovered_index: &mut Option<usize>,
    is_bubble_phase: bool,
    is_hovered: bool,
    offset: Option<usize>,
    notify: bool,
)
    requires
        call_ensures(
            Inline::<M, H>::mouse_move,
            (hovered_index, is_bubble_phase, is_hovered, offset),
            notify,
        ),
    ensures
        is_bubble_phase && is_hovered ==> *final(hovered_index) == offset,
        is_bubble_phase && is_hovered ==> notify == (*old(hovered_index) != offset),
        !is_bubble_phase || !is_hovered ==> *final(hovered_index) == *old(hovered_index),
        !is_bubble_phase || !is_hovered ==> !notify,
{
}

/// What a press of a mouse button selects: on the second click the word that was hit, on
/// the third the whole text; with it comes the text that is selected.
pub proof fn law_press_takes_text<M, H, T: Length>(
    inline: &Inline<M, H>,
    event: &MouseDownEvent<T>,
    hit: Option<TextHit>,
    bounds: Bounds<T>,
    r: Option<MultiClickSelection>,
)
    requires
        call_ensures(Inline::<M, H>::mouse_down::<T>, (inline, event, hit, bounds), r),
    ensures
        r is Some ==> {
            &&& event.is_bubble_phase && event.is_hovered && event.is_left_button
            &&& bounds.origin.x.spans_spec(bounds.size.width, event.position.x)
            &&& bounds.origin.y.spans_spec(bounds.size.height, event.position.y)
            &&& hit is Some
            &&& event.click_count == 2 || event.click_count == 3
            &&& text_slice(
                inline.text@,
                r->0.selection.start as int,
                r->0.selection.end as int,
            ) == Some(r->0.selected_text@)
        },
        r is Some && event.click_count == 2 ==> r->0.kind is Word && Some(r->0.selection)
            == hit->0.word,
        r is Some && event.click_count == 3 ==> r->0.kind is Paragraph && r->0.selected_text@
            == inline.text@,
{
    if r is Some {
        law_press_selects(inline.text@, *event, hit, bounds);
    }
}

/// An inline text shows the text of its state.
pub proof fn law_text_of_state<M, H>(
    state: &InlineState,
    links: Vec<(Range<usize>, M)>,
    highlights: Vec<(Range<usize>, H)>,
    r: Inline<M, H>,
)
    requires
        call_ensures(Inline::<M, H>::new, (Some(state), links, highlights), r),
    ensures
        r.text@ == state.text@,
        r.links@ == links@,
        r.highlights@ == highlights@,
{
}

/// Without a state, an inline text is empty.
pub proof fn law_text_without_state<M, H>(
    links: Vec<(Range<usize>, M)>,
    highlights: Vec<(Range<usize>, H)>,
    r: Inline<M, H>,
)
    requires
        call_ensures(Inline::<M, H>::new, (None::<&InlineState>, links, highlights), r),
    ensures
        r.text@.len() == 0,
        r.links@ == links@,
        r.highlights@ == highlights@,
{
}

/// Setting the text of a state leaves the rest of it alone.
pub proof fn law_set_text(state: &mut InlineState, text: String, r: ())
    requires
        call_ensures(InlineState::set_text, (state, text), r),
    ensures
        final(state).text@ == text@,
        final(state).selection == old(state).selection,
        final(state).hovered_index == old(state).hovered_index,
{
}

/// A state remembers what a multiple click selected, and keeps the rest.
pub proof fn law_click_is_kept(state: &mut InlineState, click: &MultiClickSelection, r: ())
    requires
        call_ensures(InlineState::select, (state, click), r),
    ensures
        final(state).selection == Some(click.selection),
        final(state).text@ == old(state).text@,
        final(state).hovered_index == old(state).hovered_index,
{
}

/// What is painted over a text and listened to. The pointer is a beam over text that is or
/// can be selected, and last of all a hand over a link. Presses matter where text can be
/// selected, releases where none is being selected. Text that can be selected reports its
/// places to its view. The state remembers the selection and keeps the rest.
pub proof fn law_paint<M, H, T: Length>(
    inline: &Inline<M, H>,
    state: &mut InlineState,
    is_selectable: bool,
    is_selection: bool,
    selection: Option<Selection>,
    frame: &PaintFrame<T>,
    plan: PaintPlan<T>,
)
    requires
        call_ensures(
            Inline::<M, H>::paint::<T>,
            (inline, state, is_selectable, is_selection, selection, frame),
            plan,
        ),
    ensures
        final(state).selection == selection,
        final(state).text@ == old(state).text@,
        final(state).hovered_index == old(state).hovered_index,
        plan.cursors@.contains(CursorStyle::IBeam) <==> is_selectable || is_selection,
        plan.cursors@.contains(CursorStyle::PointingHand) <==> exists|j: int| #[trigger]
            is_linked(inline.links@, frame.mouse_offset, j),
        plan.cursors@.contains(CursorStyle::PointingHand) ==> plan.cursors@.last()
            == CursorStyle::PointingHand,
        selection is None ==> plan.selection_quads@.len() == 0,
        plan.text_bounds is Some <==> is_selectable && frame.has_view,
        plan.listen_mouse_down <==> is_selectable,
        plan.listen_mouse_up <==> !is_selection,
{
    lemma_first_link(inline.links@, frame.mouse_offset);
    let beam = if is_selection || is_selectable {
        seq![CursorStyle::IBeam]
    } else {
        Seq::empty()
    };
    let hand = if link_at(inline.links@, frame.mouse_offset) is Some {
        seq![CursorStyle::PointingHand]
    } else {
        Seq::empty()
    };
    assert(plan.cursors@ == beam + hand);
    if is_selection || is_selectable {
        assert(plan.cursors@[0] == CursorStyle::IBeam);
    }
    if hand.len() > 0 {
        assert(plan.cursors@[beam.len() as int] == CursorStyle::PointingHand);
    }
}

/// A text is painted with the rectangles that show its selection, and reports the places of
/// its rows.
pub proof fn law_paint_shows_selection<M, H, T: Length>(
    inline: &Inline<M, H>,
    state: &mut InlineState,
    is_selectable: bool,
    is_selection: bool,
    selection: Selection,
    frame: &PaintFrame<T>,
    plan: PaintPlan<T>,
    quads: Vec<Bounds<T>>,
    places: Vec<Bounds<T>>,
)
    requires
        call_ensures(
            Inline::<M, H>::paint::<T>,
            (inline, state, is_selectable, is_selection, Some(selection), frame),
            plan,
        ),
        call_ensures(
            Inline::<M, H>::paint_selection::<T>,
            (
                &selection,
                frame.selection_start,
                frame.selection_end,
                frame.line_height,
                &frame.bounds,
            ),
            quads,
        ),
        call_ensures(
            Inline::<M, H>::text_line_bounds::<T>,
            (inline, &frame.positions, frame.line_height, frame.mask),
            places,
        ),
    ensures
        plan.selection_quads@ == quads@,
        plan.text_bounds is Some ==> plan.text_bounds->0@ == places@,
{
}

/// A scan returns the text from the first to the last character that the drag selects.
pub proof fn law_scan_returns_selected_characters<T: OrderedLength>(
    text_layout: &TextLayout<T>,
    text: &str,
    start: Point<T>,
    end: Point<T>,
    line_height: T,
    mask: Bounds<T>,
    r: Option<Selection>,
    k: int,
)
    requires
        call_ensures(
            scan_selection::<T>,
            (text_layout, text, start, end, line_height, mask),
            r,
        ),
        lays_out(*text_layout, text@),
        rows_fit(*text_layout, line_height),
        byte_len(text@) <= usize::MAX,
    ensures
        ({
            let drag = Drag { start, end, line_height, mask };
            &&& 0 <= k < text@.len() && selects_character(drag, text@, *text_layout, k)
                ==> r is Some && r->0.start <= offset_of(text@, k) && offset_of(text@, k + 1)
                <= r->0.end
            &&& r is Some ==> exists|i: int|
                0 <= i < text@.len() && #[trigger] selects_character(drag, text@, *text_layout, i)
                    && r->0.start == offset_of(text@, i)
            &&& r is Some ==> exists|i: int|
                0 <= i < text@.len() && #[trigger] selects_character(drag, text@, *text_layout, i)
                    && r->0.end == offset_of(text@, i + 1)
        }),
{
    law_scan_spans_selected_characters(
        text@,
        *text_layout,
        Drag { start, end, line_height, mask },
    );
}

/// Where everything is selected, the whole text is.
pub proof fn law_layout_selects_all<M, H, T: Length>(
    inline: &Inline<M, H>,
    view: &TextView<T>,
    text_layout: &TextLayout<T>,
    bounds: Bounds<T>,
    line_height: T,
    mask: Bounds<T>,
    r: (bool, bool, Option<Selection>),
)
    requires
        call_ensures(
            Inline::<M, H>::layout_selections::<T>,
            (inline, Some(view), text_layout, bounds, line_height, mask),
            r,
        ),
        view.is_selectable,
        view.is_all_selected,
    ensures
        r.0 && r.1 && r.2 is Some,
        text_slice(inline.text@, r.2->0.start as int, r.2->0.end as int) == Some(inline.text@),
{
    law_all_selected_is_whole_text(inline.text@, *view, *text_layout, bounds, line_height, mask);
}

/// What a multiple click selects in a view: the word that it hit, or the whole text; nothing
/// if it hit no character.
pub proof fn law_layout_selects_by_click<M, H, T: Length>(
    inline: &Inline<M, H>,
    view: &TextView<T>,
    click: MultiClick<T>,
    text_layout: &TextLayout<T>,
    bounds: Bounds<T>,
    line_height: T,
    mask: Bounds<T>,
    r: (bool, bool, Option<Selection>),
)
    requires
        call_ensures(
            Inline::<M, H>::layout_selections::<T>,
            (inline, Some(view), text_layout, bounds, line_height, mask),
            r,
        ),
        view.is_selectable,
        !view.is_all_selected,
        view.multi_click_selection == Some(click),
    ensures
        ({
            let inside = bounds.origin.x.spans_spec(bounds.size.width, click.pos.x)
                && bounds.origin.y.spans_spec(bounds.size.height, click.pos.y);
            &&& r.0 && r.1
            &&& !inside || click.hit is None ==> r.2 is None
            &&& inside && click.hit is Some && click.kind is Word ==> r.2 == click.hit->0.word
            &&& inside && click.hit is Some && click.kind is Paragraph && inline.text@.len() > 0
                ==> r.2 is Some && text_slice(
                inline.text@,
                r.2->0.start as int,
                r.2->0.end as int,
            ) == Some(inline.text@)
        }),
{
    law_multi_click_decides(
        inline.text@,
        *view,
        click,
        *text_layout,
        bounds,
        line_height,
        mask,
    );
}

/// What a drag selects in a view: the text from the first to the last character that it
/// selects, which all are visible.
pub proof fn law_layout_selects_by_drag<M, H, T: OrderedLength>(
    inline: &Inline<M, H>,
    view: &TextView<T>,
    text_layout: &TextLayout<T>,
    bounds: Bounds<T>,
    line_height: T,
    mask: Bounds<T>,
    r: (bool, bool, Option<Selection>),
    k: int,
)
    requires
        call_ensures(
            Inline::<M, H>::layout_selections::<T>,
            (inline, Some(view), text_layout, bounds, line_height, mask),
            r,
        ),
        view.is_selectable,
        !view.is_all_selected,
        view.multi_click_selection is None,
        view.selection_points is Some,
        lays_out(*text_layout, inline.text@),
        rows_fit(*text_layout, line_height),
    ensures
        ({
            let (start, end) = view.selection_points->0;
            let text = inline.text@;
            let drag = Drag { start, end, line_height, mask };
            &&& r.0 && r.1
            &&& 0 <= k < text.len() && selects_character(drag, text, *text_layout, k)
                ==> r.2 is Some && r.2->0.start <= offset_of(text, k) && offset_of(text, k + 1)
                <= r.2->0.end
            &&& r.2 is Some ==> exists|i: int|
                0 <= i < text.len() && #[trigger] selects_character(drag, text, *text_layout, i)
                    && r.2->0.start == offset_of(text, i)
            &&& r.2 is Some ==> exists|i: int|
                0 <= i < text.len() && #[trigger] selects_character(drag, text, *text_layout, i)
                    && r.2->0.end == offset_of(text, i + 1)
        }),
{
    let (start, end) = view.selection_points->0;
    let drag = Drag { start, end, line_height, mask };
    law_drag_selects_scan(inline.text@, *view, *text_layout, bounds, line_height, mask);
    law_scan_spans_selected_characters(inline.text@, *text_layout, drag);
}

/// A double click within the bounds of a text returns the word that it hit.
pub proof fn law_double_click_returns_word<T: Length>(
    text: &str,
    hit: TextHit,
    bounds: Bounds<T>,
    pos: Point<T>,
    r: Option<Selection>,
)
    requires
        call_ensures(
            selection_for_multi_click::<T>,
            (text, Some(hit), bounds, pos, TextViewMultiClickKind::Word),
            r,
        ),
        bounds.origin.x.spans_spec(bounds.size.width, pos.x),
        bounds.origin.y.spans_spec(bounds.size.height, pos.y),
    ensures
        r == hit.word,
{
}

/// Every rectangle that is returned for a text is the tight union of the visible parts of
/// the characters of a row.
pub proof fn law_line_bounds_are_tight<M, H, T: OrderedLength>(
    inline: &Inline<M, H>,
    positions: &Vec<Option<Point<T>>>,
    line_height: T,
    mask: Bounds<T>,
    r: Vec<Bounds<T>>,
    m: int,
)
    requires
        call_ensures(
            Inline::<M, H>::text_line_bounds::<T>,
            (inline, positions, line_height, mask),
            r,
        ),
        0 <= m < r@.len(),
        differences_exact(mask.origin.x, mask.origin.x.plus_spec(mask.size.width)),
        differences_exact(mask.origin.y, mask.origin.y.plus_spec(mask.size.height)),
    ensures
        is_tight(positions@, line_height, mask, positions@.len() - 1, m, r@[m]),
{
    law_places_are_tight(positions@, line_height, mask, m);
}

/// The rectangles that are returned for a selection leave no vertical gap, and those
/// between the rows of its ends reach from edge to edge.
pub proof fn law_painted_selection_has_no_gap<M, H, T: OrderedLength>(
    selection: &Selection,
    at_start: Point<T>,
    at_end: Point<T>,
    line_height: T,
    bounds: &Bounds<T>,
    quads: Vec<Bounds<T>>,
    y: T,
)
    requires
        call_ensures(
            Inline::<M, H>::paint_selection::<T>,
            (selection, Some(at_start), Some(at_end), line_height, bounds),
            quads,
        ),
        T::zero_spec().le_spec(line_height),
        first_end(*selection, at_start, at_end).y.le_spec(y),
        y.lt_spec(last_end(*selection, at_start, at_end).y.plus_spec(line_height)),
        differences_exact(
            first_end(*selection, at_start, at_end).y.plus_spec(line_height),
            last_end(*selection, at_start, at_end).y,
        ),
    ensures
        exists|m: int| 0 <= m < quads@.len() && at_height(#[trigger] quads@[m], y),
        first_end(*selection, at_start, at_end).y.plus_spec(line_height).le_spec(y) && y.lt_spec(
            last_end(*selection, at_start, at_end).y,
        ) ==> exists|m: int|
            0 <= m < quads@.len() && at_height(#[trigger] quads@[m], y) && full_width(
                quads@[m],
                *bounds,
            ),
{
    law_selection_has_no_gap(*selection, at_start, at_end, line_height, *bounds, y);
    let below = first_end(*selection, at_start, at_end).y.plus_spec(line_height).le_spec(y);
    if below && y.lt_spec(last_end(*selection, at_start, at_end).y) {
        law_rows_between_are_filled(*selection, at_start, at_end, line_height, *bounds, y);
    }
}

} // verus!
