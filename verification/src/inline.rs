//! A run of inline text that can be selected and clicked.
use crate::geometry::{point, Bounds, Point};
use crate::layout::TextLayout;
use crate::length::Length;
use crate::scan::{hits_in_reach, hull, scan_selection, Drag};
use crate::selection::{
    multi_click_selects, selection_for_multi_click, Selection, TextHit, TextViewMultiClickKind,
};
use crate::text::{byte_len, lemma_index_at, slice_of, text_len, text_slice};
use std::ops::Range;
use vstd::prelude::*;

verus! {

/// What is kept of an inline text between frames.
#[derive(PartialEq, Debug)]
pub struct InlineState {
    /// The byte offset of the character under the pointer.
    pub hovered_index: Option<usize>,
    /// The text that was actually drawn, which the selection refers to.
    pub text: String,
    pub selection: Option<Selection>,
}

impl Default for InlineState {
    fn default() -> (r: Self)
        ensures
            r.hovered_index is None,
            r.text@ == Seq::<char>::empty(),
            r.selection is None,
    {
        InlineState { hovered_index: None, text: String::new(), selection: None }
    }
}

impl InlineState {
    /// Saves the text that was actually drawn, for the selected text to be taken from.
    pub fn set_text(&mut self, text: String)
        ensures
            final(self).text == text,
            final(self).hovered_index == old(self).hovered_index,
            final(self).selection == old(self).selection,
    {
        self.text = text;
    }

    /// Takes over what a multiple click selected.
    pub fn select(&mut self, click: &MultiClickSelection)
        ensures
            final(self).selection == Some(click.selection),
            final(self).text == old(self).text,
            final(self).hovered_index == old(self).hovered_index,
    {
        self.selection = Some(click.selection);
    }
}

/// A run of inline text with links, each marked with an `M`, and highlights, each in a
/// style `H`. Links and highlights cover ranges of byte offsets.
#[derive(PartialEq, Debug)]
pub struct Inline<M, H> {
    pub text: String,
    pub links: Vec<(Range<usize>, M)>,
    pub highlights: Vec<(Range<usize>, H)>,
}

/// A stretch of text in one style.
#[derive(Clone, Copy, PartialEq, Eq, Debug)]
pub struct TextRun {
    /// The number of bytes.
    pub len: usize,
    /// Which highlight applies, if one does.
    pub highlight: Option<usize>,
}

/// A multiple click, as the text view remembers it.
#[derive(PartialEq, Debug)]
pub struct MultiClick<T> {
    pub pos: Point<T>,
    pub kind: TextViewMultiClickKind,
    /// What the layout of the text finds at `pos`.
    pub hit: Option<TextHit>,
}

/// The view that an inline text is part of.
#[derive(PartialEq, Debug)]
pub struct TextView<T> {
    /// Whether text can be selected.
    pub is_selectable: bool,
    /// Whether all text is selected.
    pub is_all_selected: bool,
    /// The multiple click that made the selection, if one did.
    pub multi_click_selection: Option<MultiClick<T>>,
    /// The ends of the drag that made the selection, if one did.
    pub selection_points: Option<(Point<T>, Point<T>)>,
}

/// The shape of the pointer.
#[derive(Clone, Copy, PartialEq, Eq, Debug)]
pub enum CursorStyle {
    /// Over text that can be selected.
    IBeam,
    /// Over a link.
    PointingHand,
}

/// What is known of a frame once the selection is laid out.
#[derive(PartialEq, Debug)]
pub struct PaintFrame<T> {
    /// The place of the text in the window.
    pub bounds: Bounds<T>,
    /// The height of a row in the layout.
    pub line_height: T,
    /// The part of the window that is visible.
    pub mask: Bounds<T>,
    /// The offset of the character under the pointer.
    pub mouse_offset: Option<usize>,
    /// Where the layout puts the start of the selection.
    pub selection_start: Option<Point<T>>,
    /// Where the layout puts the end of the selection.
    pub selection_end: Option<Point<T>>,
    /// Where the layout puts each character boundary, the end of the text included. Looked
    /// at only for text that can be selected and is part of a view.
    pub positions: Vec<Option<Point<T>>>,
    /// Whether the text is part of a view.
    pub has_view: bool,
}

/// What to draw of an inline text, over the text itself, and which events to listen to.
/// Moves of the pointer are listened to in any case.
#[derive(PartialEq, Debug)]
pub struct PaintPlan<T> {
    /// The pointer shapes to ask for, in order.
    pub cursors: Vec<CursorStyle>,
    /// The rectangles to fill with the selection colour, in order.
    pub selection_quads: Vec<Bounds<T>>,
    /// The places of the text to report to the view, if it wants them.
    pub text_bounds: Option<Vec<Bounds<T>>>,
    pub listen_mouse_down: bool,
    pub listen_mouse_up: bool,
}

/// A press of a mouse button.
#[derive(PartialEq, Debug)]
pub struct MouseDownEvent<T> {
    /// Whether the event is on its way up from the element it happened on.
    pub is_bubble_phase: bool,
    /// Whether the pointer is over the text.
    pub is_hovered: bool,
    pub is_left_button: bool,
    pub click_count: usize,
    pub position: Point<T>,
}

/// What a multiple click selected.
#[derive(PartialEq, Debug)]
pub struct MultiClickSelection {
    pub kind: TextViewMultiClickKind,
    pub selection: Selection,
    pub selected_text: String,
}

/// The first link, from the `from`-th on, whose range contains `offset`; past the last
/// link if there is none.
pub open spec fn link_from<M>(links: Seq<(Range<usize>, M)>, offset: usize, from: int) -> int
    decreases links.len() - from,
{
    if from >= links.len() || links[from].0.start <= offset < links[from].0.end {
        from
    } else {
        link_from(links, offset, from + 1)
    }
}

/// The mark of the first link whose range contains `offset`.
pub open spec fn link_at<M>(links: Seq<(Range<usize>, M)>, offset: Option<usize>) -> Option<M> {
    match offset {
        Some(o) => if link_from(links, o, 0) < links.len() {
            Some(links[link_from(links, o, 0)].1)
        } else {
            None
        },
        None => None,
    }
}

/// The number of bytes in a range.
pub open spec fn range_len(r: Range<usize>) -> usize {
    if r.start < r.end {
        (r.end - r.start) as usize
    } else {
        0
    }
}

/// The offset up to which the first `n` highlights have been turned into runs.
pub open spec fn styled_up_to<H>(highlights: Seq<(Range<usize>, H)>, n: int) -> usize {
    if n <= 0 {
        0
    } else {
        highlights[n - 1].0.end
    }
}

/// A run without highlight between two offsets, unless it would be empty.
pub open spec fn plain_run(from: usize, to: int) -> Seq<TextRun> {
    if from < to {
        seq![TextRun { len: (to - from) as usize, highlight: None }]
    } else {
        Seq::empty()
    }
}

/// The runs of the first `n` highlights and of the text between them.
pub open spec fn runs_up_to<H>(highlights: Seq<(Range<usize>, H)>, n: int) -> Seq<TextRun>
    decreases n,
{
    if n <= 0 {
        Seq::empty()
    } else {
        let range = highlights[n - 1].0;
        (runs_up_to(highlights, n - 1) + plain_run(
            styled_up_to(highlights, n - 1),
            range.start as int,
        )).push(TextRun { len: range_len(range), highlight: Some((n - 1) as usize) })
    }
}

/// The runs of a text of `len` bytes with highlights.
pub open spec fn runs_of<H>(highlights: Seq<(Range<usize>, H)>, len: int) -> Seq<TextRun> {
    runs_up_to(highlights, highlights.len() as int) + plain_run(
        styled_up_to(highlights, highlights.len() as int),
        len,
    )
}

/// Where the `k`-th character is drawn, as far as it is visible, and the y coordinate of
/// its row. A character reaches up to the next one if that is on the same row; otherwise
/// it is half as wide as the row is high.
pub open spec fn visible_box<T: Length>(
    positions: Seq<Option<Point<T>>>,
    line_height: T,
    mask: Bounds<T>,
    k: int,
) -> Option<(T, Bounds<T>)> {
    match positions[k] {
        Some(pos) => {
            let width = match positions[k + 1] {
                Some(next) => if next.y.same_spec(pos.y) {
                    next.x.minus_spec(pos.x)
                } else {
                    line_height.half_spec()
                },
                None => line_height.half_spec(),
            };
            let shown = Bounds::from_corners_spec(
                pos,
                Point { x: pos.x.plus_spec(width), y: pos.y.plus_spec(line_height) },
            ).intersect_spec(mask);
            if shown.has_area_spec() {
                Some((pos.y, shown))
            } else {
                None
            }
        },
        None => None,
    }
}

/// The rectangles around the visible characters of each row, for the first `n`
/// characters: those of the rows that are complete, and the last row with its y
/// coordinate.
pub open spec fn row_boxes<T: Length>(
    positions: Seq<Option<Point<T>>>,
    line_height: T,
    mask: Bounds<T>,
    n: int,
) -> (Seq<Bounds<T>>, Option<(T, Bounds<T>)>)
    decreases n,
{
    if n <= 0 {
        (Seq::empty(), None)
    } else {
        let (rows, last) = row_boxes(positions, line_height, mask, n - 1);
        match (visible_box(positions, line_height, mask, n - 1), last) {
            (None, _) => (rows, last),
            (Some((y, shown)), None) => (rows, Some((y, shown))),
            (Some((y, shown)), Some((row_y, row_box))) => if row_y.same_spec(y) {
                (rows, Some((row_y, row_box.union_spec(shown))))
            } else {
                (rows.push(row_box), Some((y, shown)))
            },
        }
    }
}

/// The rectangles around the visible characters of each row. A row whose characters are
/// interrupted by those of another one counts anew.
pub open spec fn line_boxes<T: Length>(
    positions: Seq<Option<Point<T>>>,
    line_height: T,
    mask: Bounds<T>,
) -> Seq<Bounds<T>> {
    let (rows, last) = row_boxes(positions, line_height, mask, positions.len() - 1);
    match last {
        Some((_, row_box)) => rows.push(row_box),
        None => rows,
    }
}

/// The rectangles that show a selection between two positions, the first of which comes
/// first in the text: one on a single row; otherwise the rest of the first row, the rows
/// in between if there is room for any, and the beginning of the last row.
pub open spec fn quads_between<T: Length>(
    start: Point<T>,
    end: Point<T>,
    line_height: T,
    bounds: Bounds<T>,
) -> Seq<Bounds<T>> {
    let left = bounds.origin.x;
    let right = bounds.bottom_right_spec().x;
    let start_bottom = start.y.plus_spec(line_height);
    let end_bottom = end.y.plus_spec(line_height);
    if start.y.same_spec(end.y) {
        seq![Bounds::from_corners_spec(start, Point { x: end.x, y: end_bottom })]
    } else {
        let first = Bounds::from_corners_spec(start, Point { x: right, y: start_bottom });
        let middle = Bounds::from_corners_spec(
            Point { x: left, y: start_bottom },
            Point { x: right, y: end.y },
        );
        let last = Bounds::from_corners_spec(
            Point { x: left, y: end.y },
            Point { x: end.x, y: end_bottom },
        );
        if start_bottom.lt_spec(end.y) {
            seq![first, middle, last]
        } else {
            seq![first, last]
        }
    }
}

/// The rectangles that show a selection whose ends the layout puts at `at_start` and
/// `at_end`; none where it cannot place one of them.
pub open spec fn selection_quads<T: Length>(
    selection: Selection,
    at_start: Option<Point<T>>,
    at_end: Option<Point<T>>,
    line_height: T,
    bounds: Bounds<T>,
) -> Seq<Bounds<T>> {
    if at_start is None || at_end is None {
        Seq::empty()
    } else if selection.end < selection.start {
        quads_between(at_end->0, at_start->0, line_height, bounds)
    } else {
        quads_between(at_start->0, at_end->0, line_height, bounds)
    }
}

/// Whether text can be selected, whether some selection is being made, and what it
/// covers of `text`.
pub open spec fn selection_in_view<T: Length>(
    text: Seq<char>,
    view: Option<TextView<T>>,
    layout: TextLayout<T>,
    bounds: Bounds<T>,
    line_height: T,
    mask: Bounds<T>,
) -> (bool, bool, Option<Selection>) {
    if view is None || !view->0.is_selectable {
        (false, false, None)
    } else if view->0.is_all_selected {
        (true, true, Some(Selection { start: 0, end: byte_len(text) as usize }))
    } else if view->0.multi_click_selection is Some {
        let click = view->0.multi_click_selection->0;
        (true, true, multi_click_selects(text, click.hit, bounds, click.pos, click.kind))
    } else if view->0.selection_points is Some {
        let (start, end) = view->0.selection_points->0;
        (
            true,
            true,
            hull(
                hits_in_reach(
                    text,
                    layout,
                    layout.lines@.len() as int,
                    Drag { start, end, line_height, mask },
                ),
            ),
        )
    } else {
        (true, false, None)
    }
}

/// Whether what is selected in a view depends on the layout of the text: it does if a
/// drag made the selection.
pub open spec fn selects_by_drag<T>(view: Option<TextView<T>>) -> bool {
    &&& view is Some
    &&& view->0.is_selectable
    &&& !view->0.is_all_selected
    &&& view->0.multi_click_selection is None
    &&& view->0.selection_points is Some
}

/// What a number of clicks selects.
pub open spec fn click_kind(click_count: usize) -> Option<TextViewMultiClickKind> {
    if click_count == 2 {
        Some(TextViewMultiClickKind::Word)
    } else if click_count == 3 {
        Some(TextViewMultiClickKind::Paragraph)
    } else {
        None
    }
}

/// What a press of a mouse button is meant to select.
pub open spec fn pressed_kind<T>(event: MouseDownEvent<T>) -> Option<TextViewMultiClickKind> {
    if event.is_bubble_phase && event.is_hovered && event.is_left_button {
        click_kind(event.click_count)
    } else {
        None
    }
}

/// What a press of a mouse button selects in `text`.
pub open spec fn press_selects<T: Length>(
    text: Seq<char>,
    event: MouseDownEvent<T>,
    hit: Option<TextHit>,
    bounds: Bounds<T>,
) -> Option<(TextViewMultiClickKind, Selection)> {
    match pressed_kind(event) {
        Some(kind) => match multi_click_selects(text, hit, bounds, event.position, kind) {
            Some(selection) => Some((kind, selection)),
            None => None,
        },
        None => None,
    }
}

impl<M, H> Inline<M, H> {
    /// The inline text for the text that `state` holds. A state that cannot be had counts
    /// as one without text.
    pub fn new(
        state: Option<&InlineState>,
        links: Vec<(Range<usize>, M)>,
        highlights: Vec<(Range<usize>, H)>,
    ) -> (r: Self)
        ensures
            r.text@ == (match state {
                Some(s) => s.text@,
                None => Seq::<char>::empty(),
            }),
            r.links == links,
            r.highlights == highlights,
    {
        let text = match state {
            Some(s) => s.text.clone(),
            None => String::new(),
        };
        Inline { text, links, highlights }
    }

    /// The first of `links` under a position, at which the text layout finds the character
    /// at byte `offset`, if any.
    pub fn link_for_position(offset: Option<usize>, links: &Vec<(Range<usize>, M)>) -> (r: Option<
        &M,
    >)
        ensures
            match r {
                Some(link) => link_at(links@, offset) == Some(*link),
                None => link_at(links@, offset) is None,
            },
    {
        let at = match offset {
            Some(o) => o,
            None => {
                return None;
            },
        };
        let mut j: usize = 0;
        while j < links.len()
            invariant
                offset == Some(at),
                j <= links@.len(),
                link_from(links@, at, 0) == link_from(links@, at, j as int),
            decreases links@.len() - j,
        {
            if links[j].0.start <= at && at < links[j].0.end {
                return Some(&links[j].1);
            }
            j = j + 1;
        }
        None
    }

    /// The runs that the text is to be shaped in: one for each highlight, and one for each
    /// stretch before, between and after them.
    pub fn text_runs(&self) -> (runs: Vec<TextRun>)
        ensures
            runs@ == runs_of(self.highlights@, byte_len(self.text@) as int),
    {
        let mut runs: Vec<TextRun> = Vec::new();
        let mut ix: usize = 0;
        let mut n: usize = 0;
        while n < self.highlights.len()
            invariant
                n <= self.highlights@.len(),
                ix == styled_up_to(self.highlights@, n as int),
                runs@ == runs_up_to(self.highlights@, n as int),
            decreases self.highlights@.len() - n,
        {
            let start = self.highlights[n].0.start;
            let end = self.highlights[n].0.end;
            if ix < start {
                runs.push(TextRun { len: start - ix, highlight: None });
            }
            let len = if start < end {
                end - start
            } else {
                0
            };
            runs.push(TextRun { len, highlight: Some(n) });
            ix = end;
            n = n + 1;
            assert(runs@ =~= runs_up_to(self.highlights@, n as int));
        }
        let text_end = text_len(self.text.as_str());
        if ix < text_end {
            runs.push(TextRun { len: text_end - ix, highlight: None });
        }
        assert(runs@ =~= runs_of(self.highlights@, byte_len(self.text@) as int));
        runs
    }

    /// Whether text can be selected, whether some selection is being made, and what it
    /// covers of this text. `bounds` is the place of the text in the window, `line_height`
    /// the height of a line in the window, and `mask` its visible part.
    pub fn layout_selections<T: Length>(
        &self,
        view: Option<&TextView<T>>,
        text_layout: &TextLayout<T>,
        bounds: Bounds<T>,
        line_height: T,
        mask: Bounds<T>,
    ) -> (r: (bool, bool, Option<Selection>))
        requires
            selects_by_drag(
                (match view {
                    Some(v) => Some(*v),
                    None => None,
                }),
            ) ==> text_layout.wf(),
        ensures
            r == selection_in_view(
                self.text@,
                (match view {
                    Some(v) => Some(*v),
                    None => None,
                }),
                *text_layout,
                bounds,
                line_height,
                mask,
            ),
            byte_len(self.text@) <= usize::MAX,
    {
        let text = self.text.as_str();
        let text_end = text_len(text);
        let view = match view {
            Some(v) => v,
            None => {
                return (false, false, None);
            },
        };
        if !view.is_selectable {
            return (false, false, None);
        }
        if view.is_all_selected {
            return (true, true, Some(Selection { start: 0, end: text_end }));
        }
        if let Some(click) = &view.multi_click_selection {
            return (
                true,
                true,
                selection_for_multi_click(text, click.hit, bounds, click.pos, click.kind),
            );
        }
        match view.selection_points {
            None => (true, false, None),
            Some((start, end)) => {
                let selection = scan_selection(text_layout, text, start, end, line_height, mask);
                (true, true, selection)
            },
        }
    }

    /// The rectangles around the visible characters of each row. `positions` are the
    /// places of all character boundaries of the text.
    pub fn text_line_bounds<T: Length>(
        &self,
        positions: &Vec<Option<Point<T>>>,
        line_height: T,
        mask: Bounds<T>,
    ) -> (r: Vec<Bounds<T>>)
        requires
            positions@.len() == self.text@.len() + 1,
        ensures
            r@ == line_boxes(positions@, line_height, mask),
    {
        let mut line_bounds: Vec<Bounds<T>> = Vec::new();
        let mut current: Option<(T, Bounds<T>)> = None;
        let chars = positions.len() - 1;
        let mut k: usize = 0;
        while k < chars
            invariant
                k <= chars,
                chars == positions@.len() - 1,
                (line_bounds@, current) == row_boxes(positions@, line_height, mask, k as int),
            decreases chars - k,
        {
            if let Some(pos) = positions[k] {
                let mut char_width = line_height.half();
                if let Some(next_pos) = positions[k + 1] {
                    if next_pos.y.same(pos.y) {
                        char_width = next_pos.x.minus(pos.x);
                    }
                }
                let shown = Bounds::from_corners(
                    pos,
                    point(pos.x.plus(char_width), pos.y.plus(line_height)),
                ).intersect(&mask);
                if shown.has_area() {
                    current = match current {
                        None => Some((pos.y, shown)),
                        Some((row_y, row_box)) => if row_y.same(pos.y) {
                            Some((row_y, row_box.union(&shown)))
                        } else {
                            line_bounds.push(row_box);
                            Some((pos.y, shown))
                        },
                    };
                }
            }
            k = k + 1;
        }
        if let Some((_, row_box)) = current {
            line_bounds.push(row_box);
        }
        line_bounds
    }

    /// The rectangles that show `selection`, whose ends the text layout puts at `at_start`
    /// and `at_end`.
    pub fn paint_selection<T: Length>(
        selection: &Selection,
        at_start: Option<Point<T>>,
        at_end: Option<Point<T>>,
        line_height: T,
        bounds: &Bounds<T>,
    ) -> (quads: Vec<Bounds<T>>)
        ensures
            quads@ == selection_quads(*selection, at_start, at_end, line_height, *bounds),
    {
        let mut quads: Vec<Bounds<T>> = Vec::new();
        let (first, second) = if selection.end < selection.start {
            (at_end, at_start)
        } else {
            (at_start, at_end)
        };
        let start = match first {
            Some(p) => p,
            None => {
                return quads;
            },
        };
        let end = match second {
            Some(p) => p,
            None => {
                return quads;
            },
        };
        if start.y.same(end.y) {
            quads.push(Bounds::from_corners(start, point(end.x, end.y.plus(line_height))));
        } else {
            quads.push(
                Bounds::from_corners(start, point(bounds.right(), start.y.plus(line_height))),
            );
            if start.y.plus(line_height).lt(end.y) {
                quads.push(
                    Bounds::from_corners(
                        point(bounds.left(), start.y.plus(line_height)),
                        point(bounds.right(), end.y),
                    ),
                );
            }
            quads.push(
                Bounds::from_corners(
                    point(bounds.left(), end.y),
                    point(end.x, end.y.plus(line_height)),
                ),
            );
        }
        assert(quads@ =~= selection_quads(*selection, at_start, at_end, line_height, *bounds));
        quads
    }

    /// What to draw and to listen to, once [`Inline::layout_selections`] has said whether
    /// text can be selected, whether some selection is being made, and what it covers of
    /// this text. The state remembers the selection.
    pub fn paint<T: Length>(
        &self,
        state: &mut InlineState,
        is_selectable: bool,
        is_selection: bool,
        selection: Option<Selection>,
        frame: &PaintFrame<T>,
    ) -> (plan: PaintPlan<T>)
        requires
            is_selectable && frame.has_view ==> frame.positions@.len() == self.text@.len() + 1,
        ensures
            final(state).selection == selection,
            final(state).text == old(state).text,
            final(state).hovered_index == old(state).hovered_index,
            plan.cursors@ == (if is_selection || is_selectable {
                seq![CursorStyle::IBeam]
            } else {
                Seq::empty()
            }) + (if link_at(self.links@, frame.mouse_offset) is Some {
                seq![CursorStyle::PointingHand]
            } else {
                Seq::empty()
            }),
            plan.selection_quads@ == (match selection {
                Some(s) => selection_quads(
                    s,
                    frame.selection_start,
                    frame.selection_end,
                    frame.line_height,
                    frame.bounds,
                ),
                None => Seq::empty(),
            }),
            plan.text_bounds is Some <==> is_selectable && frame.has_view,
            plan.text_bounds is Some ==> plan.text_bounds->0@ == line_boxes(
                frame.positions@,
                frame.line_height,
                frame.mask,
            ),
            plan.listen_mouse_down == is_selectable,
            plan.listen_mouse_up == !is_selection,
    {
        state.selection = selection;
        let mut cursors: Vec<CursorStyle> = Vec::new();
        if is_selection || is_selectable {
            cursors.push(CursorStyle::IBeam);
        }
        if Self::link_for_position(frame.mouse_offset, &self.links).is_some() {
            cursors.push(CursorStyle::PointingHand);
        }
        let selection_quads = match &state.selection {
            Some(s) => Self::paint_selection(
                s,
                frame.selection_start,
                frame.selection_end,
                frame.line_height,
                &frame.bounds,
            ),
            None => Vec::new(),
        };
        let text_bounds = if is_selectable && frame.has_view {
            Some(self.text_line_bounds(&frame.positions, frame.line_height, frame.mask))
        } else {
            None
        };
        PaintPlan {
            cursors,
            selection_quads,
            text_bounds,
            listen_mouse_down: is_selectable,
            listen_mouse_up: !is_selection,
        }
    }

    /// What a press of a mouse button is meant to select, if anything: the left button,
    /// pressed twice over the text, selects a word, and three times a paragraph.
    pub fn press_kind<T: Length>(event: &MouseDownEvent<T>) -> (r: Option<TextViewMultiClickKind>)
        ensures
            r == pressed_kind(*event),
    {
        if !event.is_bubble_phase || !event.is_hovered || !event.is_left_button {
            return None;
        }
        match event.click_count {
            2 => Some(TextViewMultiClickKind::Word),
            3 => Some(TextViewMultiClickKind::Paragraph),
            _ => None,
        }
    }

    /// What a press of a mouse button selects in the text, which is drawn within `bounds`.
    /// `hit` is what the text layout finds where the button was pressed. A word must be a
    /// part of the text.
    pub fn mouse_down<T: Length>(
        &self,
        event: &MouseDownEvent<T>,
        hit: Option<TextHit>,
        bounds: Bounds<T>,
    ) -> (r: Option<MultiClickSelection>)
        requires
            match press_selects(self.text@, *event, hit, bounds) {
                Some((kind, s)) => kind is Word ==> text_slice(
                    self.text@,
                    s.start as int,
                    s.end as int,
                ) is Some,
                None => true,
            },
        ensures
            match press_selects(self.text@, *event, hit, bounds) {
                Some((kind, s)) => {
                    &&& r is Some
                    &&& r->0.kind == kind
                    &&& r->0.selection == s
                    &&& text_slice(self.text@, s.start as int, s.end as int) == Some(
                        r->0.selected_text@,
                    )
                },
                None => r is None,
            },
            r is Some ==> byte_len(self.text@) <= usize::MAX,
    {
        let kind = match Self::press_kind(event) {
            Some(k) => k,
            None => {
                return None;
            },
        };
        let text = self.text.as_str();
        let selection = match selection_for_multi_click(text, hit, bounds, event.position, kind) {
            Some(s) => s,
            None => {
                return None;
            },
        };
        proof {
            lemma_index_at(text@, 0);
            lemma_index_at(text@, text@.len() as int);
        }
        let selected_text = match slice_of(text, selection.start, selection.end) {
            Some(part) => part.to_owned(),
            None => String::new(),
        };
        Some(MultiClickSelection { kind, selection, selected_text })
    }

    /// Whether the link that the pointer is over may have changed with a move of the
    /// pointer to the character at byte `offset`, if any. `hovered_index` follows the
    /// pointer.
    pub fn mouse_move(
        hovered_index: &mut Option<usize>,
        is_bubble_phase: bool,
        is_hovered: bool,
        offset: Option<usize>,
    ) -> (notify: bool)
        ensures
            *final(hovered_index) == (if is_bubble_phase && is_hovered {
                offset
            } else {
                *old(hovered_index)
            }),
            notify == (*final(hovered_index) != *old(hovered_index)),
    {
        if !is_bubble_phase || !is_hovered {
            return false;
        }
        let unchanged = match (*hovered_index, offset) {
            (Some(current), Some(updated)) => current == updated,
            (None, None) => true,
            _ => false,
        };
        if !unchanged {
            *hovered_index = offset;
        }
        !unchanged
    }

    /// The link to open when a mouse button is released over the character at byte
    /// `offset`, if any. `has_selection` says whether the view has text selected.
    pub fn mouse_up(
        &self,
        is_bubble_phase: bool,
        is_hovered: bool,
        has_selection: bool,
        offset: Option<usize>,
    ) -> (r: Option<&M>)
        ensures
            match r {
                Some(link) => is_bubble_phase && is_hovered && !has_selection && link_at(
                    self.links@,
                    offset,
                ) == Some(*link),
                None => !is_bubble_phase || !is_hovered || has_selection || link_at(
                    self.links@,
                    offset,
                ) is None,
            },
    {
        if !is_bubble_phase || !is_hovered {
            return None;
        }
        if has_selection {
            return None;
        }
        Self::link_for_position(offset, &self.links)
    }
}

} // verus!
