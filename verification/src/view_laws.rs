//! Laws on what a text view selects, and what clicks do.
use crate::geometry::{Bounds, Point};
use crate::inline::{
    link_at, press_selects, pressed_kind, selection_in_view, MouseDownEvent, MultiClick, TextView,
};
use crate::layout::TextLayout;
use crate::length::Length;
use crate::scan::{hits_in_reach, hull, Drag};
use crate::selection::{multi_click_selects, Selection, TextHit, TextViewMultiClickKind};
use crate::text::{byte_len, lemma_index_at, text_slice};
use std::ops::Range;
use vstd::prelude::*;

verus! {

/// Whether a selection takes in a text as a whole.
pub open spec fn is_whole(text: Seq<char>, s: Selection) -> bool {
    text_slice(text, s.start as int, s.end as int) == Some(text)
}

proof fn lemma_whole(text: Seq<char>)
    requires
        byte_len(text) <= usize::MAX,
    ensures
        is_whole(text, (Selection { start: 0, end: byte_len(text) as usize })),
{
    lemma_index_at(text, 0);
    lemma_index_at(text, text.len() as int);
    assert(text.subrange(0, text.len() as int) =~= text);
}

/// A double click on a word selects that word.
pub proof fn law_double_click_selects_word<T: Length>(
    text: Seq<char>,
    hit: TextHit,
    bounds: Bounds<T>,
    pos: Point<T>,
)
    requires
        bounds.origin.x.spans_spec(bounds.size.width, pos.x),
        bounds.origin.y.spans_spec(bounds.size.height, pos.y),
    ensures
        hit.word is None ==> multi_click_selects(
            text,
            Some(hit),
            bounds,
            pos,
            TextViewMultiClickKind::Word,
        ) is None,
        hit.word is Some ==> ({
            let r = multi_click_selects(
                text,
                Some(hit),
                bounds,
                pos,
                TextViewMultiClickKind::Word,
            );
            &&& r is Some
            &&& r->0.start == hit.word->0.start
            &&& r->0.end == hit.word->0.end
        }),
{
}

/// A triple click on a character selects the whole text, unless there is none.
pub proof fn law_triple_click_selects_text<T: Length>(
    text: Seq<char>,
    hit: TextHit,
    bounds: Bounds<T>,
    pos: Point<T>,
)
    requires
        byte_len(text) <= usize::MAX,
        bounds.origin.x.spans_spec(bounds.size.width, pos.x),
        bounds.origin.y.spans_spec(bounds.size.height, pos.y),
    ensures
        ({
            let r = multi_click_selects(
                text,
                Some(hit),
                bounds,
                pos,
                TextViewMultiClickKind::Paragraph,
            );
            &&& text =~= Seq::empty() ==> r is None
            &&& text.len() > 0 ==> r is Some && is_whole(text, r->0)
        }),
{
    lemma_whole(text);
}

/// A click beside the text, or where there is no character, selects nothing.
pub proof fn law_click_elsewhere_selects_nothing<T: Length>(
    text: Seq<char>,
    hit: Option<TextHit>,
    bounds: Bounds<T>,
    pos: Point<T>,
    kind: TextViewMultiClickKind,
)
    requires
        hit is None || !bounds.origin.x.spans_spec(bounds.size.width, pos.x)
            || !bounds.origin.y.spans_spec(bounds.size.height, pos.y),
    ensures
        multi_click_selects(text, hit, bounds, pos, kind) is None,
{
}

/// Where everything is selected, so is the whole of every text that can be.
pub proof fn law_all_selected_is_whole_text<T: Length>(
    text: Seq<char>,
    view: TextView<T>,
    layout: TextLayout<T>,
    bounds: Bounds<T>,
    line_height: T,
    mask: Bounds<T>,
)
    requires
        byte_len(text) <= usize::MAX,
        view.is_selectable,
        view.is_all_selected,
    ensures
        ({
            let (selectable, selecting, s) = selection_in_view(
                text,
                Some(view),
                layout,
                bounds,
                line_height,
                mask,
            );
            &&& selectable
            &&& selecting
            &&& s is Some
            &&& text_slice(text, s->0.start as int, s->0.end as int) == Some(text)
        }),
{
    lemma_whole(text);
}

/// Without a view, or in one whose text cannot be selected, nothing is.
pub proof fn law_nothing_to_select<T: Length>(
    text: Seq<char>,
    view: Option<TextView<T>>,
    layout: TextLayout<T>,
    bounds: Bounds<T>,
    line_height: T,
    mask: Bounds<T>,
)
    requires
        view is None || !view->0.is_selectable,
    ensures
        ({
            let (selectable, selecting, s) = selection_in_view(
                text,
                view,
                layout,
                bounds,
                line_height,
                mask,
            );
            !selectable && !selecting && s is None
        }),
{
}

/// Before a click or a drag, text that can be selected is not.
pub proof fn law_nothing_selected_yet<T: Length>(
    text: Seq<char>,
    view: TextView<T>,
    layout: TextLayout<T>,
    bounds: Bounds<T>,
    line_height: T,
    mask: Bounds<T>,
)
    requires
        view.is_selectable,
        !view.is_all_selected,
        view.multi_click_selection is None,
        view.selection_points is None,
    ensures
        ({
            let (selectable, selecting, s) = selection_in_view(
                text,
                Some(view),
                layout,
                bounds,
                line_height,
                mask,
            );
            selectable && !selecting && s is None
        }),
{
}

/// A multiple click decides what is selected, whatever drag is remembered beside it: the
/// word under it or the whole text, if it hit the text, and otherwise nothing of it.
pub proof fn law_multi_click_decides<T: Length>(
    text: Seq<char>,
    view: TextView<T>,
    click: MultiClick<T>,
    layout: TextLayout<T>,
    bounds: Bounds<T>,
    line_height: T,
    mask: Bounds<T>,
)
    requires
        byte_len(text) <= usize::MAX,
        view.is_selectable,
        !view.is_all_selected,
        view.multi_click_selection == Some(click),
    ensures
        ({
            let (selectable, selecting, s) = selection_in_view(
                text,
                Some(view),
                layout,
                bounds,
                line_height,
                mask,
            );
            let inside = bounds.origin.x.spans_spec(bounds.size.width, click.pos.x)
                && bounds.origin.y.spans_spec(bounds.size.height, click.pos.y);
            &&& selectable
            &&& selecting
            &&& !inside || click.hit is None ==> s is None
            &&& inside && click.hit is Some && click.kind is Word ==> s == click.hit->0.word
            &&& inside && click.hit is Some && click.kind is Paragraph ==> if text.len() == 0 {
                s is None
            } else {
                s is Some && is_whole(text, s->0)
            }
        }),
{
    lemma_whole(text);
}

/// Without a multiple click, a drag selects what a scan of the whole layout for that drag
/// finds.
pub proof fn law_drag_selects_scan<T: Length>(
    text: Seq<char>,
    view: TextView<T>,
    layout: TextLayout<T>,
    bounds: Bounds<T>,
    line_height: T,
    mask: Bounds<T>,
)
    requires
        view.is_selectable,
        !view.is_all_selected,
        view.multi_click_selection is None,
        view.selection_points is Some,
    ensures
        ({
            let (selectable, selecting, s) = selection_in_view(
                text,
                Some(view),
                layout,
                bounds,
                line_height,
                mask,
            );
            let (start, end) = view.selection_points->0;
            &&& selectable
            &&& selecting
            &&& s == hull(
                hits_in_reach(
                    text,
                    layout,
                    layout.lines@.len() as int,
                    Drag { start, end, line_height, mask },
                ),
            )
        }),
{
}

/// The left button, pressed over the text, selects a word on the second click and a
/// paragraph on the third. Nothing else does.
pub proof fn law_pressed_kind<T>(event: MouseDownEvent<T>)
    ensures
        pressed_kind(event) == Some(TextViewMultiClickKind::Word) <==> event.is_bubble_phase
            && event.is_hovered && event.is_left_button && event.click_count == 2,
        pressed_kind(event) == Some(TextViewMultiClickKind::Paragraph) <==> event.is_bubble_phase
            && event.is_hovered && event.is_left_button && event.click_count == 3,
{
}

/// What a press selects: on the second click the word that was hit, on the third the whole
/// text, and nothing on any other or beside the text.
pub proof fn law_press_selects<T: Length>(
    text: Seq<char>,
    event: MouseDownEvent<T>,
    hit: Option<TextHit>,
    bounds: Bounds<T>,
)
    requires
        byte_len(text) <= usize::MAX,
    ensures
        ({
            let r = press_selects(text, event, hit, bounds);
            let inside = bounds.origin.x.spans_spec(bounds.size.width, event.position.x)
                && bounds.origin.y.spans_spec(bounds.size.height, event.position.y);
            let counts = event.is_bubble_phase && event.is_hovered && event.is_left_button
                && inside && hit is Some;
            &&& r is Some <==> counts && (event.click_count == 2 && hit->0.word is Some
                || event.click_count == 3 && text.len() > 0)
            &&& r is Some && event.click_count == 2 ==> r == Some(
                (TextViewMultiClickKind::Word, hit->0.word->0),
            )
            &&& r is Some && event.click_count == 3 ==> (r->0).0 is Paragraph && is_whole(
                text,
                (r->0).1,
            )
        }),
{
    lemma_whole(text);
}

/// Where there is no character there is no link.
pub proof fn law_no_link_without_character<M>(links: Seq<(Range<usize>, M)>)
    ensures
        link_at(links, None) is None,
{
}

} // verus!
