//! Laws that relate the functions of this crate.
use crate::geometry::{Bounds, Point};
use crate::inline::{
    link_at, link_from, plain_run, press_selects, range_len, runs_of, runs_up_to, selection_in_view,
    selection_quads, styled_up_to, MouseDownEvent, MultiClick, TextRun, TextView,
};
use crate::layout::{
    lemma_line_start_monotone, lemma_row_from, row_start, TextLayout, WrappedLineLayout,
};
use crate::length::{Length, OrderedLength, Pixels};
use crate::scan::{
    hits_in_chars, hits_in_line, hits_in_reach, hull, line_chars, ByteRange, Drag,
};
use crate::selection::{drag_selects, in_row, Selection, TextHit, TextViewMultiClickKind};
use crate::text::{
    byte_len, index_at, lemma_index_at, lemma_offset_monotone, lemma_offset_subrange, offset_of,
    on_boundary, text_slice, utf8_width,
};
use std::ops::Range;
use vstd::prelude::*;

verus! {

/// A drag selects the same characters in whichever direction it was made.
pub proof fn law_drag_direction<T: OrderedLength>(
    pos: Point<T>,
    char_width: T,
    a: Point<T>,
    b: Point<T>,
    line_height: T,
)
    ensures
        drag_selects(pos, char_width, a, b, line_height) == drag_selects(
            pos,
            char_width,
            b,
            a,
            line_height,
        ),
{
    T::law_total(a.y, b.y);
    T::law_total(b.y, a.y);
    if a.y.le_spec(b.y) && b.y.le_spec(a.y) {
        T::law_antisymmetric(a.y, b.y);
    }
    T::law_total(a.x, b.x);
    T::law_total(b.x, a.x);
    if a.x.le_spec(b.x) && b.x.le_spec(a.x) {
        T::law_antisymmetric(a.x, b.x);
    }
    T::law_least_greatest(a.y, b.y);
    T::law_least_greatest(b.y, a.y);
    T::law_least_greatest(a.x, b.x);
    T::law_least_greatest(b.x, a.x);
}

/// A drag within one row selects the characters between the x coordinates of its ends,
/// wherever in the row the ends are.
pub proof fn law_drag_within_row<T: OrderedLength>(
    pos: Point<T>,
    char_width: T,
    a: Point<T>,
    b: Point<T>,
    line_height: T,
)
    requires
        in_row(pos.y, line_height, a.y),
        in_row(pos.y, line_height, b.y),
    ensures
        drag_selects(pos, char_width, a, b, line_height) == {
            let x = pos.x.plus_spec(char_width.half_spec());
            a.x.least_spec(b.x).le_spec(x) && x.le_spec(a.x.greatest_spec(b.x))
        },
{
    let bottom = pos.y.plus_spec(line_height);
    T::law_least_greatest(a.y, b.y);
    T::law_total(a.y, bottom);
    T::law_total(b.y, bottom);
    T::law_total(a.y, pos.y);
    T::law_total(b.y, pos.y);
}

/// A drag selects all of a row that lies between the rows of its ends.
pub proof fn law_drag_between_rows<T: OrderedLength>(
    pos: Point<T>,
    char_width: T,
    a: Point<T>,
    b: Point<T>,
    line_height: T,
)
    requires
        a.y.lt_spec(pos.y),
        pos.y.lt_spec(pos.y.plus_spec(line_height)),
        pos.y.plus_spec(line_height).le_spec(b.y),
    ensures
        drag_selects(pos, char_width, a, b, line_height),
{
    let bottom = pos.y.plus_spec(line_height);
    T::law_total(a.y, pos.y);
    T::law_total(pos.y, bottom);
    T::law_total(a.y, bottom);
    T::law_total(b.y, bottom);
    T::law_total(a.y, b.y);
    T::law_least_greatest(a.y, b.y);
    T::law_total(pos.y, a.y);
    T::law_total(b.y, pos.y);
    if b.y.lt_spec(pos.y) {
        T::law_total(b.y, pos.y);
        T::law_total(pos.y, b.y);
        T::law_transitive(bottom, b.y, pos.y);
    }
    if bottom.le_spec(a.y) {
        T::law_transitive(pos.y, bottom, a.y);
    }
    if b.y.le_spec(a.y) {
        T::law_transitive(bottom, b.y, a.y);
    }
    T::law_total(bottom, a.y);
}

/// The characters that a drag selects in line `j` of a layout, in reading order.
pub open spec fn hits_in_layout_line<T: Length>(
    text: Seq<char>,
    layout: TextLayout<T>,
    j: int,
    drag: Drag<T>,
) -> Seq<ByteRange> {
    hits_in_line(
        text,
        layout.lines@[j],
        layout.line_start(j),
        layout.line_origin(j),
        layout.line_height,
        drag,
    )
}

/// The characters that a drag selects in the first `n` lines of a layout, in reading
/// order.
pub open spec fn hits_in_lines<T: Length>(
    text: Seq<char>,
    layout: TextLayout<T>,
    n: int,
    drag: Drag<T>,
) -> Seq<ByteRange>
    decreases n,
{
    if n <= 0 {
        Seq::empty()
    } else {
        hits_in_lines(text, layout, n - 1, drag) + hits_in_layout_line(text, layout, n - 1, drag)
    }
}

/// The number of rows that a line wraps into.
pub open spec fn row_count<T>(line: WrappedLineLayout<T>) -> usize {
    (line.wrap_boundaries@.len() + 1) as usize
}

/// Every line is high enough for its rows, and nothing is of negative height.
pub open spec fn rows_fit<T: Length>(layout: TextLayout<T>, line_height: T) -> bool {
    &&& T::zero_spec().le_spec(line_height)
    &&& T::zero_spec().le_spec(layout.line_height)
    &&& forall|j: int| 0 <= j < layout.lines@.len() ==> {
        &&& #[trigger] layout.lines@[j].wrap_boundaries@.len() < usize::MAX
        &&& layout.line_height.times_spec(row_count(layout.lines@[j])).le_spec(
            layout.lines@[j].height,
        )
    }
}

/// A drag selects a character of a line only if it reaches the line.
pub proof fn law_hit_line_is_reached<T: OrderedLength>(
    layout: TextLayout<T>,
    j: int,
    drag: Drag<T>,
    i: int,
)
    requires
        rows_fit(layout, drag.line_height),
        0 <= j < layout.lines@.len(),
        drag.hits_index(layout.lines@[j], layout.line_origin(j), layout.line_height, i),
    ensures
        drag.reaches(layout.line_height, layout.line_top(j), layout.line_top(j + 1)),
{
    let line = layout.lines@[j];
    let lh = drag.line_height;
    let row_height = layout.line_height;
    let slack = lh.greatest_spec(row_height);
    let top = layout.line_top(j);
    let bottom = layout.line_top(j + 1);
    let row = line.row_of(i);
    lemma_row_from(line.row_ends(), i, 0);
    let y = top.plus_spec(row_height.times_spec(row as usize));
    let centre = y.plus_spec(lh.half_spec());
    let mask_top = drag.mask.origin.y;
    let mask_bottom = drag.mask.bottom_right_spec().y;
    let sel_top = drag.start.y.least_spec(drag.end.y);
    let sel_bottom = drag.start.y.greatest_spec(drag.end.y);

    // The row lies within the line.
    T::law_times_monotone(row_height, row as usize, row_count(line));
    T::law_transitive(
        row_height.times_spec(row as usize),
        row_height.times_spec(row_count(line)),
        line.height,
    );
    T::law_plus_monotone(row_height.times_spec(row as usize), line.height, top);
    assert(y.le_spec(bottom));
    T::law_plus_grows(top, row_height.times_spec(row as usize));
    assert(top.le_spec(y));

    // The slack covers a line and half a line.
    T::law_least_greatest(lh, row_height);
    T::law_total(lh, row_height);
    T::law_total(lh, lh);
    assert(lh.le_spec(slack));
    T::law_half(lh);
    T::law_transitive(lh.half_spec(), lh, slack);
    T::law_transitive(T::zero_spec(), lh, slack);

    // The selection reaches the line.
    T::law_plus_monotone(lh, slack, y);
    T::law_plus_monotone(y, bottom, slack);
    T::law_transitive(y.plus_spec(lh), y.plus_spec(slack), bottom.plus_spec(slack));
    T::law_total(y.plus_spec(lh), sel_top);
    T::law_transitive(sel_top, y.plus_spec(lh), bottom.plus_spec(slack));
    T::law_total(sel_bottom, y);
    T::law_transitive(top, y, sel_bottom);

    // The mask reaches the line.
    T::law_spans(mask_top, drag.mask.size.height, centre);
    T::law_plus_monotone(lh.half_spec(), slack, y);
    T::law_transitive(centre, y.plus_spec(slack), bottom.plus_spec(slack));
    T::law_transitive(mask_top, centre, bottom.plus_spec(slack));
    T::law_plus_grows(y, lh.half_spec());
    T::law_transitive(top, y, centre);
    T::law_transitive(top, centre, mask_bottom);
    T::law_plus_grows(mask_bottom, slack);
    T::law_transitive(top, mask_bottom, mask_bottom.plus_spec(slack));
}

proof fn lemma_no_hits_out_of_reach<T: OrderedLength>(
    chars: Seq<char>,
    n: int,
    layout: TextLayout<T>,
    j: int,
    drag: Drag<T>,
)
    requires
        rows_fit(layout, drag.line_height),
        0 <= j < layout.lines@.len(),
        !drag.reaches(layout.line_height, layout.line_top(j), layout.line_top(j + 1)),
    ensures
        hits_in_chars(
            chars,
            n,
            layout.lines@[j],
            layout.line_start(j),
            layout.line_origin(j),
            layout.line_height,
            drag,
        ) == Seq::<ByteRange>::empty(),
    decreases n,
{
    if n > 0 {
        lemma_no_hits_out_of_reach(chars, n - 1, layout, j, drag);
        let line = layout.lines@[j];
        let offset = offset_of(chars, n - 1) as int;
        let i = if offset < line.len {
            offset
        } else {
            line.len as int
        };
        if drag.hits_index(line, layout.line_origin(j), layout.line_height, i) {
            law_hit_line_is_reached(layout, j, drag, i);
        }
    }
}

/// Skipping the lines that a drag does not reach makes no difference to what it selects.
pub proof fn law_skipping_lines_changes_nothing<T: OrderedLength>(
    text: Seq<char>,
    layout: TextLayout<T>,
    n: int,
    drag: Drag<T>,
)
    requires
        rows_fit(layout, drag.line_height),
        0 <= n <= layout.lines@.len(),
    ensures
        hits_in_reach(text, layout, n, drag) == hits_in_lines(text, layout, n, drag),
    decreases n,
{
    if n > 0 {
        law_skipping_lines_changes_nothing(text, layout, n - 1, drag);
        let line = layout.lines@[n - 1];
        let start = layout.line_start(n - 1);
        if !drag.reaches(layout.line_height, layout.line_top(n - 1), layout.line_top(n)) {
            if let Some(chars) = line_chars(text, line, start) {
                lemma_no_hits_out_of_reach(chars, chars.len() as int, layout, n - 1, drag);
            }
            assert(hits_in_lines(text, layout, n - 1, drag) + Seq::<ByteRange>::empty()
                =~= hits_in_lines(text, layout, n - 1, drag));
        }
    }
}

/// The first line, from the `from`-th on, that byte `offset` of the text does not lie
/// beyond, its line break included.
pub open spec fn line_holding<T: Length>(layout: TextLayout<T>, offset: int, from: int) -> int
    decreases layout.lines@.len() - from,
{
    if from >= layout.lines@.len() || offset <= layout.line_start(from) + layout.lines@[from].len {
        from
    } else {
        line_holding(layout, offset, from + 1)
    }
}

/// Where a layout puts byte `offset` of the text; nowhere past the last line.
pub open spec fn position_in_layout<T: Length>(layout: TextLayout<T>, offset: int) -> Option<
    Point<T>,
> {
    let j = line_holding(layout, offset, 0);
    if j < layout.lines@.len() {
        Some(
            layout.lines@[j].position_for_index(
                layout.line_origin(j),
                layout.line_height,
                offset - layout.line_start(j),
            ),
        )
    } else {
        None
    }
}

/// How wide a layout draws the character at byte `offset` of the text.
pub open spec fn width_in_layout<T: Length>(
    layout: TextLayout<T>,
    line_height: T,
    offset: int,
) -> T {
    let j = line_holding(layout, offset, 0);
    layout.lines@[j].width_at(line_height, offset - layout.line_start(j))
}

/// The selected ones among the first `n` characters of a text, if each is tested at the
/// place where the layout puts it.
pub open spec fn hits_in_text<T: Length>(
    text: Seq<char>,
    n: int,
    layout: TextLayout<T>,
    drag: Drag<T>,
) -> Seq<ByteRange>
    decreases n,
{
    if n <= 0 {
        Seq::empty()
    } else {
        let before = hits_in_text(text, n - 1, layout, drag);
        let offset = offset_of(text, n - 1) as int;
        match position_in_layout(layout, offset) {
            Some(pos) => if drag.hits(pos, width_in_layout(layout, drag.line_height, offset)) {
                before.push((offset, offset_of(text, n) as int))
            } else {
                before
            },
            None => before,
        }
    }
}

/// Whether the lines of a layout start and end at characters of a text, as far as they
/// do not lie past its end.
pub open spec fn lays_out<T: Length>(layout: TextLayout<T>, text: Seq<char>) -> bool {
    forall|j: int|
        0 <= j <= layout.lines@.len() && #[trigger] layout.line_start(j) <= byte_len(text)
            ==> on_boundary(text, layout.line_start(j))
}

/// The line that a byte lies in is the first one that it does not lie beyond.
pub proof fn lemma_line_holding<T: Length>(layout: TextLayout<T>, offset: int, j: int, from: int)
    requires
        0 <= from <= j <= layout.lines@.len(),
        layout.line_start(j) <= offset,
        j < layout.lines@.len() ==> offset <= layout.line_start(j) + layout.lines@[j].len,
    ensures
        line_holding(layout, offset, from) == j,
    decreases j - from,
{
    if from < j {
        lemma_line_start_monotone(layout, from + 1, j);
        lemma_line_holding(layout, offset, j, from + 1);
    }
}

/// The index of the character that line `j` starts with, or would start with.
spec fn line_index<T: Length>(layout: TextLayout<T>, text: Seq<char>, j: int) -> int {
    if layout.line_start(j) <= byte_len(text) {
        index_at(text, layout.line_start(j))
    } else {
        text.len() as int
    }
}

proof fn lemma_line_of_text<T: Length>(layout: TextLayout<T>, text: Seq<char>, j: int)
    requires
        lays_out(layout, text),
        0 <= j < layout.lines@.len(),
    ensures
        0 <= line_index(layout, text, j) <= line_index(layout, text, j + 1) <= text.len(),
        offset_of(text, line_index(layout, text, j + 1)) <= layout.line_start(j + 1),
        layout.line_start(j) <= byte_len(text) ==> {
            &&& offset_of(text, line_index(layout, text, j)) == layout.line_start(j)
            &&& line_chars(text, layout.lines@[j], layout.line_start(j)) == Some(
                text.subrange(line_index(layout, text, j), line_index(layout, text, j + 1)),
            )
        },
        layout.line_start(j) > byte_len(text) ==> {
            &&& line_index(layout, text, j) == line_index(layout, text, j + 1)
            &&& line_chars(text, layout.lines@[j], layout.line_start(j)) is None
        },
{
    let start = layout.line_start(j);
    let next = layout.line_start(j + 1);
    let from = line_index(layout, text, j);
    let to = line_index(layout, text, j + 1);
    assert(start < next);
    lemma_index_at(text, text.len() as int);
    if start <= byte_len(text) {
        assert(on_boundary(text, start));
    }
    if next <= byte_len(text) {
        assert(on_boundary(text, next));
    }
    if to < from {
        lemma_offset_monotone(text, to, from);
    }
}

proof fn lemma_hits_in_line<T: Length>(
    layout: TextLayout<T>,
    text: Seq<char>,
    j: int,
    n: int,
    drag: Drag<T>,
)
    requires
        lays_out(layout, text),
        0 <= j < layout.lines@.len(),
        layout.line_start(j) <= byte_len(text),
        0 <= n <= line_index(layout, text, j + 1) - line_index(layout, text, j),
    ensures
        hits_in_text(text, line_index(layout, text, j) + n, layout, drag) == hits_in_text(
            text,
            line_index(layout, text, j),
            layout,
            drag,
        ) + hits_in_chars(
            text.subrange(line_index(layout, text, j), line_index(layout, text, j + 1)),
            n,
            layout.lines@[j],
            layout.line_start(j),
            layout.line_origin(j),
            layout.line_height,
            drag,
        ),
    decreases n,
{
    let from = line_index(layout, text, j);
    let to = line_index(layout, text, j + 1);
    let line = layout.lines@[j];
    let start = layout.line_start(j);
    let chars = text.subrange(from, to);
    let before = hits_in_text(text, from, layout, drag);
    lemma_line_of_text(layout, text, j);
    if n == 0 {
        assert(before + Seq::<ByteRange>::empty() =~= before);
    } else {
        lemma_hits_in_line(layout, text, j, n - 1, drag);
        let k = from + n - 1;
        let rel = offset_of(chars, n - 1) as int;
        lemma_offset_subrange(text, from, to, n - 1);
        lemma_offset_monotone(text, k + 1, to);
        assert(offset_of(text, k) == start + rel);
        assert(rel <= line.len);
        lemma_line_holding(layout, start + rel, j, 0);
        let in_line = hits_in_chars(
            chars,
            n - 1,
            line,
            start,
            layout.line_origin(j),
            layout.line_height,
            drag,
        );
        let range = (start + rel, start + rel + utf8_width(chars[n - 1]));
        assert((before + in_line).push(range) =~= before + in_line.push(range));
    }
}

proof fn lemma_hits_in_lines<T: Length>(
    layout: TextLayout<T>,
    text: Seq<char>,
    n: int,
    drag: Drag<T>,
)
    requires
        lays_out(layout, text),
        0 <= n <= layout.lines@.len(),
    ensures
        hits_in_lines(text, layout, n, drag) == hits_in_text(
            text,
            line_index(layout, text, n),
            layout,
            drag,
        ),
    decreases n,
{
    if n == 0 {
        lemma_index_at(text, 0);
    } else {
        let j = n - 1;
        lemma_hits_in_lines(layout, text, j, drag);
        lemma_line_of_text(layout, text, j);
        if layout.line_start(j) <= byte_len(text) {
            lemma_hits_in_line(
                layout,
                text,
                j,
                line_index(layout, text, n) - line_index(layout, text, j),
                drag,
            );
        } else {
            assert(hits_in_lines(text, layout, j, drag) + Seq::<ByteRange>::empty()
                =~= hits_in_lines(text, layout, j, drag));
        }
    }
}

proof fn lemma_no_hits_past_lines<T: Length>(
    layout: TextLayout<T>,
    text: Seq<char>,
    k: int,
    drag: Drag<T>,
)
    requires
        lays_out(layout, text),
        line_index(layout, text, layout.lines@.len() as int) <= k <= text.len(),
    ensures
        hits_in_text(text, k, layout, drag) == hits_in_text(
            text,
            line_index(layout, text, layout.lines@.len() as int),
            layout,
            drag,
        ),
    decreases k,
{
    let n = layout.lines@.len() as int;
    let from = line_index(layout, text, n);
    if from < k {
        assert(on_boundary(text, layout.line_start(n)));
        lemma_no_hits_past_lines(layout, text, k - 1, drag);
        lemma_offset_monotone(text, from, k - 1);
        lemma_line_holding(layout, offset_of(text, k - 1) as int, n, 0);
    }
}

/// What a drag selects in a text that is laid out, by the lines that it reaches, is what
/// testing every character of the text at its place finds, from the first one selected to
/// the last.
pub proof fn law_scan_tests_every_character<T: OrderedLength>(
    text: Seq<char>,
    layout: TextLayout<T>,
    drag: Drag<T>,
)
    requires
        lays_out(layout, text),
        rows_fit(layout, drag.line_height),
    ensures
        hits_in_reach(text, layout, layout.lines@.len() as int, drag) == hits_in_text(
            text,
            text.len() as int,
            layout,
            drag,
        ),
        hull(hits_in_reach(text, layout, layout.lines@.len() as int, drag)) == hull(
            hits_in_text(text, text.len() as int, layout, drag),
        ),
{
    let n = layout.lines@.len() as int;
    law_skipping_lines_changes_nothing(text, layout, n, drag);
    lemma_hits_in_lines(layout, text, n, drag);
    if layout.line_start(n) <= byte_len(text) {
        assert(on_boundary(text, layout.line_start(n)));
    }
    lemma_no_hits_past_lines(layout, text, text.len() as int, drag);
}

/// A drag with its ends exchanged.
pub open spec fn reversed<T>(drag: Drag<T>) -> Drag<T> {
    Drag { start: drag.end, end: drag.start, line_height: drag.line_height, mask: drag.mask }
}

proof fn lemma_hits_in_chars_reversed<T: OrderedLength>(
    chars: Seq<char>,
    n: int,
    line: WrappedLineLayout<T>,
    start: int,
    origin: Point<T>,
    row_height: T,
    drag: Drag<T>,
)
    ensures
        hits_in_chars(chars, n, line, start, origin, row_height, reversed(drag)) == hits_in_chars(
            chars,
            n,
            line,
            start,
            origin,
            row_height,
            drag,
        ),
    decreases n,
{
    if n > 0 {
        lemma_hits_in_chars_reversed(chars, n - 1, line, start, origin, row_height, drag);
        let offset = offset_of(chars, n - 1) as int;
        let i = if offset < line.len {
            offset
        } else {
            line.len as int
        };
        law_drag_direction(
            line.position_for_index(origin, row_height, i),
            line.width_at(drag.line_height, i),
            drag.start,
            drag.end,
            drag.line_height,
        );
    }
}

/// A drag over a layout selects the same characters in whichever direction it was made,
/// and therefore the same range.
pub proof fn law_scan_ignores_direction<T: OrderedLength>(
    text: Seq<char>,
    layout: TextLayout<T>,
    n: int,
    drag: Drag<T>,
)
    ensures
        hits_in_reach(text, layout, n, reversed(drag)) == hits_in_reach(text, layout, n, drag),
        hull(hits_in_reach(text, layout, n, reversed(drag))) == hull(
            hits_in_reach(text, layout, n, drag),
        ),
    decreases n,
{
    if n > 0 {
        law_scan_ignores_direction(text, layout, n - 1, drag);
        let a = drag.start.y;
        let b = drag.end.y;
        T::law_total(a, b);
        T::law_total(b, a);
        if a.le_spec(b) && b.le_spec(a) {
            T::law_antisymmetric(a, b);
        }
        T::law_least_greatest(a, b);
        T::law_least_greatest(b, a);
        let line = layout.lines@[n - 1];
        let start = layout.line_start(n - 1);
        if let Some(chars) = line_chars(text, line, start) {
            lemma_hits_in_chars_reversed(
                chars,
                chars.len() as int,
                line,
                start,
                layout.line_origin(n - 1),
                layout.line_height,
                drag,
            );
        }
    }
}

/// Where the rows of a line end one after the other, each row starts where the one
/// before it ended.
pub proof fn law_row_starts_at_last_end(ends: Seq<usize>, row: int)
    requires
        0 < row <= ends.len(),
        forall|i: int, j: int| 0 <= i <= j < ends.len() ==> ends[i] <= ends[j],
    ensures
        row_start(ends, row) == ends[row - 1],
    decreases row,
{
    assert(row_start(ends, 0) == 0);
    if row > 1 {
        law_row_starts_at_last_end(ends, row - 1);
        assert(ends[row - 2] <= ends[row - 1]);
    }
}

/// Later characters of a line are drawn on the same row or a later one.
pub proof fn law_rows_follow_text<T: Length>(line: WrappedLineLayout<T>, i: int, j: int)
    requires
        i <= j,
    ensures
        0 <= line.row_of(i) <= line.row_of(j) < line.row_ends().len(),
{
    lemma_row_from(line.row_ends(), i, 0);
    lemma_row_from(line.row_ends(), j, 0);
    if line.row_of(j) < line.row_of(i) {
        assert(line.row_ends()[line.row_of(j)] < i);
    }
}

/// A character is drawn up to the place of the next byte where that is on the same row,
/// and half a line wide where a wrap or the end of the line comes first.
pub proof fn law_width_reaches_next_byte<T: Length>(
    line: WrappedLineLayout<T>,
    line_height: T,
    i: int,
)
    requires
        forall|r: int| 0 <= r < line.row_ends().len() ==> #[trigger] line.row_ends()[r] <= line.len,
    ensures
        line.width_at(line_height, i) == (if i < line.len && line.row_of(i + 1) == line.row_of(i) {
            line.x_on_row(i + 1).minus_spec(line.x_on_row(i))
        } else {
            line_height.half_spec()
        }),
{
    let ends = line.row_ends();
    let row = line.row_of(i);
    lemma_row_from(ends, i, 0);
    lemma_row_from(ends, i + 1, 0);
    law_rows_follow_text(line, i, i + 1);
    if i + 1 <= ends[row] && line.row_of(i + 1) > row {
        assert(ends[row] < i + 1);
    }
}

/// How wide the character at byte `offset` is drawn, by the positions of that byte and of
/// the next one: up to the next byte where both have the same y, otherwise half a line
/// height.
pub open spec fn width_by_positions<T: Length>(
    layout: TextLayout<T>,
    line_height: T,
    offset: int,
) -> T {
    match (position_in_layout(layout, offset), position_in_layout(layout, offset + 1)) {
        (Some(pos), Some(next)) => if next.y.same_spec(pos.y) {
            next.x.minus_spec(pos.x)
        } else {
            line_height.half_spec()
        },
        _ => line_height.half_spec(),
    }
}

/// The selected ones among the first `n` characters of a text, if all that is asked of
/// the layout is the positions of bytes.
pub open spec fn hits_by_positions<T: Length>(
    text: Seq<char>,
    n: int,
    layout: TextLayout<T>,
    drag: Drag<T>,
) -> Seq<ByteRange>
    decreases n,
{
    if n <= 0 {
        Seq::empty()
    } else {
        let before = hits_by_positions(text, n - 1, layout, drag);
        let offset = offset_of(text, n - 1) as int;
        match position_in_layout(layout, offset) {
            Some(pos) => if drag.hits(pos, width_by_positions(layout, drag.line_height, offset)) {
                before.push((offset, offset_of(text, n) as int))
            } else {
                before
            },
            None => before,
        }
    }
}

/// The y coordinate of a row of line `j`.
pub open spec fn row_y<T: Length>(layout: TextLayout<T>, j: int, row: int) -> T {
    layout.line_top(j).plus_spec(layout.line_height.times_spec(row as usize))
}

/// Whether positions tell rows and distances apart: no row of a line ends past the line,
/// rows that follow each other in the text have different y coordinates, and the place of
/// the layout does not change the distance between two bytes on a row.
pub open spec fn positions_tell<T: Length>(layout: TextLayout<T>) -> bool {
    &&& forall|j: int, r: int|
        0 <= j < layout.lines@.len() && 0 <= r < layout.lines@[j].row_ends().len()
            ==> #[trigger] layout.lines@[j].row_ends()[r] <= layout.lines@[j].len
    &&& forall|j: int, r: int, q: int|
        0 <= j < layout.lines@.len() && 0 <= r < q < layout.lines@[j].row_ends().len()
            ==> #[trigger] row_y(layout, j, r) != #[trigger] row_y(layout, j, q)
    &&& forall|j: int, r: int|
        0 <= j < layout.lines@.len() - 1 && 0 <= r < layout.lines@[j].row_ends().len()
            ==> #[trigger] row_y(layout, j, r) != row_y(layout, j + 1, 0)
    &&& forall|j: int, i: int| #![trigger layout.lines@[j].x_on_row(i)]
        0 <= j < layout.lines@.len() && 0 <= i < layout.lines@[j].len ==> {
            let line = layout.lines@[j];
            layout.origin.x.plus_spec(line.x_on_row(i + 1)).minus_spec(
                layout.origin.x.plus_spec(line.x_on_row(i)),
            ) == line.x_on_row(i + 1).minus_spec(line.x_on_row(i))
        }
}

/// Fixed point positions tell rows and distances apart wherever rows have a height, lines
/// are high enough for their rows, and no coordinate saturates.
pub proof fn law_pixel_positions_tell(layout: TextLayout<Pixels>)
    requires
        0 < layout.line_height.units,
        forall|j: int, r: int|
            0 <= j < layout.lines@.len() && 0 <= r < layout.lines@[j].row_ends().len()
                ==> #[trigger] layout.lines@[j].row_ends()[r] <= layout.lines@[j].len,
        forall|j: int| #![trigger layout.lines@[j]]
            0 <= j < layout.lines@.len() ==> {
                let line = layout.lines@[j];
                &&& line.row_ends().len() <= usize::MAX
                &&& layout.line_height.units * line.row_ends().len() <= line.height.units
                &&& layout.line_top(j).units + line.height.units <= i64::MAX
            },
        forall|j: int, i: int| #![trigger layout.lines@[j].x_on_row(i)]
            0 <= j < layout.lines@.len() && 0 <= i <= layout.lines@[j].len ==> i64::MIN
                <= layout.origin.x.units + layout.lines@[j].x_on_row(i).units <= i64::MAX,
    ensures
        positions_tell(layout),
{
    let h = layout.line_height.units as int;
    assert forall|j: int, r: int|
        0 <= j < layout.lines@.len() && 0 <= r < layout.lines@[j].row_ends().len() implies (
    #[trigger] row_y(layout, j, r)).units == layout.line_top(j).units + h * r && h * r
        < layout.lines@[j].height.units by {
        let rows = layout.lines@[j].row_ends().len() as int;
        assert(0 <= h * r && h * r + h <= h * rows) by (nonlinear_arith)
            requires
                0 < h,
                0 <= r < rows,
        ;
        assert(r as usize == r);
    }
    assert forall|j: int, r: int, q: int|
        0 <= j < layout.lines@.len() && 0 <= r < q < layout.lines@[j].row_ends().len() implies
        #[trigger] row_y(layout, j, r) != #[trigger] row_y(layout, j, q) by {
        assert(h * r < h * q) by (nonlinear_arith)
            requires
                0 < h,
                0 <= r < q,
        ;
    }
    assert forall|j: int, r: int|
        0 <= j < layout.lines@.len() - 1 && 0 <= r < layout.lines@[j].row_ends().len() implies
        #[trigger] row_y(layout, j, r) != row_y(layout, j + 1, 0) by {
        let line = layout.lines@[j];
        let next = layout.lines@[j + 1];
        assert(layout.line_top(j + 1) == layout.line_top(j).plus_spec(line.height));
        assert(row_y(layout, j + 1, 0).units == layout.line_top(j + 1).units + h * 0);
    }
    assert forall|j: int, i: int| #![trigger layout.lines@[j].x_on_row(i)]
        0 <= j < layout.lines@.len() && 0 <= i < layout.lines@[j].len implies {
        let line = layout.lines@[j];
        layout.origin.x.plus_spec(line.x_on_row(i + 1)).minus_spec(
            layout.origin.x.plus_spec(line.x_on_row(i)),
        ) == line.x_on_row(i + 1).minus_spec(line.x_on_row(i))
    } by {
        let next = layout.lines@[j].x_on_row(i + 1);
    }
}

/// The search for the line of a byte ends at the line that it lies in, or past all lines.
pub proof fn lemma_line_found<T: Length>(layout: TextLayout<T>, offset: int, from: int)
    requires
        0 <= from <= layout.lines@.len(),
        layout.line_start(from) <= offset,
    ensures
        from <= line_holding(layout, offset, from) <= layout.lines@.len(),
        layout.line_start(line_holding(layout, offset, from)) <= offset,
        line_holding(layout, offset, from) < layout.lines@.len() ==> offset <= layout.line_start(
            line_holding(layout, offset, from),
        ) + layout.lines@[line_holding(layout, offset, from)].len,
    decreases layout.lines@.len() - from,
{
    if !(from >= layout.lines@.len() || offset <= layout.line_start(from)
        + layout.lines@[from].len) {
        lemma_line_found(layout, offset, from + 1);
    }
}

/// Where positions tell rows and distances apart, a character is as wide as the positions
/// of its first byte and of the next byte say.
pub proof fn law_width_by_positions<T: OrderedLength>(
    layout: TextLayout<T>,
    line_height: T,
    offset: int,
)
    requires
        positions_tell(layout),
        0 <= offset,
        position_in_layout(layout, offset) is Some,
    ensures
        width_in_layout(layout, line_height, offset) == width_by_positions(
            layout,
            line_height,
            offset,
        ),
{
    let n = layout.lines@.len() as int;
    lemma_line_found(layout, offset, 0);
    let j = line_holding(layout, offset, 0);
    let line = layout.lines@[j];
    let i = offset - layout.line_start(j);
    let row = line.row_of(i);
    law_width_reaches_next_byte(line, line_height, i);
    lemma_row_from(line.row_ends(), i, 0);
    if i < line.len {
        let next_row = line.row_of(i + 1);
        lemma_line_holding(layout, offset + 1, j, 0);
        law_rows_follow_text(line, i, i + 1);
        T::law_same(row_y(layout, j, next_row), row_y(layout, j, row));
        assert(line.x_on_row(i) == layout.lines@[j].x_on_row(i));
    } else {
        lemma_line_holding(layout, offset + 1, j + 1, 0);
        if j + 1 < n {
            assert(layout.lines@[j + 1].row_of(0) == 0);
            T::law_same(row_y(layout, j + 1, 0), row_y(layout, j, row));
        }
    }
}

/// What a drag selects in a text that is laid out, by the lines that it reaches, is what
/// asking the layout for the position of every character of the text and of the byte
/// after it finds, where those positions tell rows and distances apart.
pub proof fn law_scan_tests_every_position<T: OrderedLength>(
    text: Seq<char>,
    layout: TextLayout<T>,
    drag: Drag<T>,
)
    requires
        lays_out(layout, text),
        rows_fit(layout, drag.line_height),
        positions_tell(layout),
    ensures
        hits_in_reach(text, layout, layout.lines@.len() as int, drag) == hits_by_positions(
            text,
            text.len() as int,
            layout,
            drag,
        ),
        hull(hits_in_reach(text, layout, layout.lines@.len() as int, drag)) == hull(
            hits_by_positions(text, text.len() as int, layout, drag),
        ),
{
    law_scan_tests_every_character(text, layout, drag);
    lemma_hits_by_positions(text, text.len() as int, layout, drag);
}

proof fn lemma_hits_by_positions<T: OrderedLength>(
    text: Seq<char>,
    n: int,
    layout: TextLayout<T>,
    drag: Drag<T>,
)
    requires
        positions_tell(layout),
    ensures
        hits_by_positions(text, n, layout, drag) == hits_in_text(text, n, layout, drag),
    decreases n,
{
    if n > 0 {
        lemma_hits_by_positions(text, n - 1, layout, drag);
        let offset = offset_of(text, n - 1) as int;
        if position_in_layout(layout, offset) is Some {
            law_width_by_positions(layout, drag.line_height, offset);
        }
    }
}

/// Whether ranges lie one after the other between two offsets, each on whole characters
/// and none of them empty.
pub open spec fn ranges_within(
    text: Seq<char>,
    ranges: Seq<ByteRange>,
    start: int,
    end: int,
) -> bool {
    &&& forall|m: int| #![trigger ranges[m]]
        0 <= m < ranges.len() ==> {
            &&& start <= ranges[m].0 < ranges[m].1 <= end
            &&& on_boundary(text, ranges[m].0)
            &&& on_boundary(text, ranges[m].1)
        }
    &&& forall|m: int, o: int| 0 <= m < o < ranges.len() ==> ranges[m].1 <= ranges[o].0
}

proof fn lemma_ranges_concat(
    text: Seq<char>,
    a: Seq<ByteRange>,
    b: Seq<ByteRange>,
    start: int,
    middle: int,
    end: int,
)
    requires
        start <= middle <= end,
        ranges_within(text, a, start, middle),
        ranges_within(text, b, middle, end),
    ensures
        ranges_within(text, a + b, start, end),
{
    let all = a + b;
    assert forall|m: int| #![trigger all[m]] 0 <= m < all.len() implies {
        &&& start <= all[m].0 < all[m].1 <= end
        &&& on_boundary(text, all[m].0)
        &&& on_boundary(text, all[m].1)
    } by {
        if m < a.len() {
            assert(all[m] == a[m]);
        } else {
            assert(all[m] == b[m - a.len()]);
        }
    }
    assert forall|m: int, o: int| 0 <= m < o < all.len() implies all[m].1 <= all[o].0 by {
        if o < a.len() {
            assert(all[m] == a[m] && all[o] == a[o]);
        } else {
            assert(all[o] == b[o - a.len()]);
            if m < a.len() {
                assert(all[m] == a[m]);
            } else {
                assert(all[m] == b[m - a.len()]);
            }
        }
    }
}

proof fn lemma_hits_in_chars_within<T: Length>(
    text: Seq<char>,
    from: int,
    to: int,
    n: int,
    line: WrappedLineLayout<T>,
    origin: Point<T>,
    row_height: T,
    drag: Drag<T>,
)
    requires
        0 <= from <= to <= text.len(),
        0 <= n <= to - from,
    ensures
        ranges_within(
            text,
            hits_in_chars(
                text.subrange(from, to),
                n,
                line,
                offset_of(text, from) as int,
                origin,
                row_height,
                drag,
            ),
            offset_of(text, from) as int,
            offset_of(text, from + n) as int,
        ),
    decreases n,
{
    if n > 0 {
        let chars = text.subrange(from, to);
        let start = offset_of(text, from) as int;
        let before = hits_in_chars(chars, n - 1, line, start, origin, row_height, drag);
        lemma_hits_in_chars_within(text, from, to, n - 1, line, origin, row_height, drag);
        lemma_offset_subrange(text, from, to, n - 1);
        lemma_index_at(text, from + n - 1);
        lemma_index_at(text, from + n);
        let range = (
            offset_of(text, from + n - 1) as int,
            offset_of(text, from + n) as int,
        );
        assert(ranges_within(text, seq![range], range.0, range.1));
        lemma_ranges_concat(text, before, seq![range], start, range.0, range.1);
        assert(before + seq![range] =~= before.push(range));
        assert(before + Seq::<ByteRange>::empty() =~= before);
        assert(ranges_within(text, Seq::<ByteRange>::empty(), range.0, range.1));
        lemma_ranges_concat(
            text,
            before,
            Seq::<ByteRange>::empty(),
            start,
            range.0,
            range.1,
        );
    }
}

proof fn lemma_hits_in_line_within<T: Length>(
    text: Seq<char>,
    layout: TextLayout<T>,
    j: int,
    drag: Drag<T>,
)
    requires
        0 <= j < layout.lines@.len(),
    ensures
        0 <= layout.line_start(j) <= layout.line_start(j + 1),
        ranges_within(
            text,
            hits_in_layout_line(text, layout, j, drag),
            layout.line_start(j),
            layout.line_start(j + 1),
        ),
{
    let line = layout.lines@[j];
    let start = layout.line_start(j);
    let end = layout.line_start(j + 1);
    lemma_line_start_monotone(layout, 0, j);
    if let Some(chars) = line_chars(text, line, start) {
        let scan_end = if end < byte_len(text) {
            end
        } else {
            byte_len(text) as int
        };
        let from = index_at(text, start);
        let to = index_at(text, scan_end);
        if to < from {
            lemma_offset_monotone(text, to, from);
        }
        lemma_hits_in_chars_within(
            text,
            from,
            to,
            to - from,
            line,
            layout.line_origin(j),
            layout.line_height,
            drag,
        );
    }
}

proof fn lemma_hits_in_reach_within<T: Length>(
    text: Seq<char>,
    layout: TextLayout<T>,
    n: int,
    drag: Drag<T>,
)
    requires
        0 <= n <= layout.lines@.len(),
    ensures
        ranges_within(
            text,
            hits_in_reach(text, layout, n, drag),
            0,
            layout.line_start(n),
        ),
    decreases n,
{
    if n > 0 {
        let before = hits_in_reach(text, layout, n - 1, drag);
        let start = layout.line_start(n - 1);
        let end = layout.line_start(n);
        lemma_hits_in_reach_within(text, layout, n - 1, drag);
        lemma_hits_in_line_within(text, layout, n - 1, drag);
        lemma_ranges_concat(
            text,
            before,
            hits_in_layout_line(text, layout, n - 1, drag),
            0,
            start,
            end,
        );
        assert(ranges_within(text, Seq::<ByteRange>::empty(), start, end));
        lemma_ranges_concat(text, before, Seq::<ByteRange>::empty(), 0, start, end);
        assert(before + Seq::<ByteRange>::empty() =~= before);
    }
}

/// What a drag selects is a part of the text, and not empty.
pub proof fn law_selection_is_part_of_text<T: Length>(
    text: Seq<char>,
    layout: TextLayout<T>,
    drag: Drag<T>,
)
    requires
        byte_len(text) <= usize::MAX,
    ensures
        match hull(hits_in_reach(text, layout, layout.lines@.len() as int, drag)) {
            Some(s) => {
                &&& s.start < s.end <= byte_len(text)
                &&& text_slice(text, s.start as int, s.end as int) is Some
            },
            None => true,
        },
{
    let n = layout.lines@.len() as int;
    let hits = hits_in_reach(text, layout, n, drag);
    lemma_hits_in_reach_within(text, layout, n, drag);
    if hits.len() > 0 {
        let first = hits[0];
        let last = hits[hits.len() - 1];
        assert(on_boundary(text, first.0) && on_boundary(text, last.1));
        let k = index_at(text, first.0);
        lemma_offset_monotone(text, k, text.len() as int);
        let k = index_at(text, last.1);
        lemma_offset_monotone(text, k, text.len() as int);
    }
}

/// A drag, seen through another mask.
pub open spec fn with_mask<T>(drag: Drag<T>, mask: Bounds<T>) -> Drag<T> {
    Drag { start: drag.start, end: drag.end, line_height: drag.line_height, mask }
}

/// Whether every point of one rectangle lies in another.
pub open spec fn within<T: Length>(inner: Bounds<T>, outer: Bounds<T>) -> bool {
    forall|p: Point<T>| #[trigger] inner.contains_spec(p) ==> outer.contains_spec(p)
}

/// Whether ranges in order reach at least as far, on both ends, as others.
spec fn encloses(outer: Seq<ByteRange>, inner: Seq<ByteRange>) -> bool {
    inner.len() > 0 ==> {
        &&& outer.len() > 0
        &&& outer[0].0 <= inner[0].0
        &&& inner.last().1 <= outer.last().1
    }
}

proof fn lemma_encloses_concat(
    text: Seq<char>,
    outer: Seq<ByteRange>,
    inner: Seq<ByteRange>,
    outer_next: Seq<ByteRange>,
    inner_next: Seq<ByteRange>,
    start: int,
    middle: int,
    end: int,
)
    requires
        encloses(outer, inner),
        encloses(outer_next, inner_next),
        ranges_within(text, outer, start, middle),
        ranges_within(text, inner, start, middle),
        ranges_within(text, outer_next, middle, end),
        ranges_within(text, inner_next, middle, end),
    ensures
        encloses(outer + outer_next, inner + inner_next),
{
    let all = outer + outer_next;
    let some = inner + inner_next;
    if some.len() > 0 {
        if inner.len() > 0 {
            assert(some[0] == inner[0]);
            assert(all[0] == outer[0]);
            assert(inner[inner.len() - 1].1 <= middle);
        } else {
            assert(some[0] == inner_next[0]);
            if outer.len() > 0 {
                assert(all[0] == outer[0]);
                assert(outer[0].1 <= middle);
            } else {
                assert(all[0] == outer_next[0]);
            }
        }
        if inner_next.len() > 0 {
            assert(some.last() == inner_next.last());
            assert(all.last() == outer_next.last());
        } else {
            assert(some.last() == inner.last());
            if outer_next.len() > 0 {
                assert(all.last() == outer_next[outer_next.len() - 1]);
            } else {
                assert(all.last() == outer.last());
            }
        }
    }
}

proof fn lemma_mask_in_chars<T: Length>(
    text: Seq<char>,
    from: int,
    to: int,
    n: int,
    line: WrappedLineLayout<T>,
    origin: Point<T>,
    row_height: T,
    drag: Drag<T>,
    mask: Bounds<T>,
)
    requires
        within(drag.mask, mask),
        0 <= from <= to <= text.len(),
        0 <= n <= to - from,
    ensures
        encloses(
            hits_in_chars(
                text.subrange(from, to),
                n,
                line,
                offset_of(text, from) as int,
                origin,
                row_height,
                with_mask(drag, mask),
            ),
            hits_in_chars(
                text.subrange(from, to),
                n,
                line,
                offset_of(text, from) as int,
                origin,
                row_height,
                drag,
            ),
        ),
    decreases n,
{
    if n > 0 {
        let wide = with_mask(drag, mask);
        let chars = text.subrange(from, to);
        let start = offset_of(text, from) as int;
        lemma_mask_in_chars(text, from, to, n - 1, line, origin, row_height, drag, mask);
        lemma_hits_in_chars_within(text, from, to, n - 1, line, origin, row_height, drag);
        lemma_hits_in_chars_within(text, from, to, n - 1, line, origin, row_height, wide);
        let inner = hits_in_chars(chars, n - 1, line, start, origin, row_height, drag);
        let outer = hits_in_chars(chars, n - 1, line, start, origin, row_height, wide);
        let offset = offset_of(chars, n - 1) as int;
        lemma_offset_subrange(text, from, to, n - 1);
        let i = if offset < line.len {
            offset
        } else {
            line.len as int
        };
        let pos = line.position_for_index(origin, row_height, i);
        let width = line.width_at(drag.line_height, i);
        assert(wide.centre(pos, width) == drag.centre(pos, width));
        assert(drag.mask.contains_spec(drag.centre(pos, width)) ==> mask.contains_spec(
            drag.centre(pos, width),
        ));
        assert(drag.hits_index(line, origin, row_height, i) ==> wide.hits_index(
            line,
            origin,
            row_height,
            i,
        ));
        if inner.len() > 0 {
            assert(inner[inner.len() - 1].1 <= start + offset);
        }
        if outer.len() > 0 {
            assert(outer[0].0 <= start + offset);
        }
    }
}

proof fn lemma_mask_in_line<T: Length>(
    text: Seq<char>,
    layout: TextLayout<T>,
    j: int,
    drag: Drag<T>,
    mask: Bounds<T>,
)
    requires
        within(drag.mask, mask),
        0 <= j < layout.lines@.len(),
    ensures
        encloses(
            hits_in_layout_line(text, layout, j, with_mask(drag, mask)),
            hits_in_layout_line(text, layout, j, drag),
        ),
{
    let line = layout.lines@[j];
    let start = layout.line_start(j);
    let end = layout.line_start(j + 1);
    if let Some(chars) = line_chars(text, line, start) {
        let scan_end = if end < byte_len(text) {
            end
        } else {
            byte_len(text) as int
        };
        let from = index_at(text, start);
        let to = index_at(text, scan_end);
        if to < from {
            lemma_offset_monotone(text, to, from);
        }
        lemma_mask_in_chars(
            text,
            from,
            to,
            to - from,
            line,
            layout.line_origin(j),
            layout.line_height,
            drag,
            mask,
        );
    }
}

proof fn lemma_hits_need_mask<T: Length>(
    chars: Seq<char>,
    n: int,
    line: WrappedLineLayout<T>,
    start: int,
    origin: Point<T>,
    row_height: T,
    drag: Drag<T>,
)
    requires
        hits_in_chars(chars, n, line, start, origin, row_height, drag).len() > 0,
    ensures
        exists|p: Point<T>| #[trigger] drag.mask.contains_spec(p),
    decreases n,
{
    if hits_in_chars(chars, n - 1, line, start, origin, row_height, drag).len() > 0 {
        lemma_hits_need_mask(chars, n - 1, line, start, origin, row_height, drag);
    } else {
        let offset = offset_of(chars, n - 1) as int;
        let i = if offset < line.len {
            offset
        } else {
            line.len as int
        };
        assert(drag.mask.contains_spec(
            drag.centre(
                line.position_for_index(origin, row_height, i),
                line.width_at(drag.line_height, i),
            ),
        ));
    }
}

/// A line that a drag reaches through a mask that shows something is reached through any
/// mask that holds the first one.
pub proof fn law_larger_mask_reaches_more<T: OrderedLength>(
    drag: Drag<T>,
    mask: Bounds<T>,
    p: Point<T>,
    row_height: T,
    top: T,
    bottom: T,
)
    requires
        within(drag.mask, mask),
        drag.mask.contains_spec(p),
        drag.reaches(row_height, top, bottom),
    ensures
        with_mask(drag, mask).reaches(row_height, top, bottom),
{
    let start = drag.mask.origin.y;
    let extent = drag.mask.size.height;
    assert forall|c: T| #[trigger] start.spans_spec(extent, c) implies mask.origin.y.spans_spec(
        mask.size.height,
        c,
    ) by {
        assert(drag.mask.contains_spec(Point { x: p.x, y: c }));
    }
    T::law_spans_nested(start, extent, p.y, mask.origin.y, mask.size.height);
    let slack = drag.line_height.greatest_spec(row_height);
    T::law_transitive(mask.origin.y, start, bottom.plus_spec(slack));
    let inner_end = drag.mask.bottom_right_spec().y;
    let outer_end = mask.bottom_right_spec().y;
    T::law_plus_monotone(inner_end, outer_end, slack);
    T::law_transitive(top, inner_end.plus_spec(slack), outer_end.plus_spec(slack));
}

proof fn lemma_mask_in_reach<T: OrderedLength>(
    text: Seq<char>,
    layout: TextLayout<T>,
    n: int,
    drag: Drag<T>,
    mask: Bounds<T>,
)
    requires
        within(drag.mask, mask),
        0 <= n <= layout.lines@.len(),
    ensures
        encloses(
            hits_in_reach(text, layout, n, with_mask(drag, mask)),
            hits_in_reach(text, layout, n, drag),
        ),
    decreases n,
{
    if n > 0 {
        let wide = with_mask(drag, mask);
        let j = n - 1;
        let start = layout.line_start(j);
        let end = layout.line_start(n);
        let none = Seq::<ByteRange>::empty();
        lemma_mask_in_reach(text, layout, j, drag, mask);
        lemma_hits_in_reach_within(text, layout, j, drag);
        lemma_hits_in_reach_within(text, layout, j, wide);
        lemma_mask_in_line(text, layout, j, drag, mask);
        lemma_hits_in_line_within(text, layout, j, drag);
        lemma_hits_in_line_within(text, layout, j, wide);
        let inner = hits_in_reach(text, layout, j, drag);
        let outer = hits_in_reach(text, layout, j, wide);
        let top = layout.line_top(j);
        let bottom = layout.line_top(n);
        let inner_next = if drag.reaches(layout.line_height, top, bottom) {
            hits_in_layout_line(text, layout, j, drag)
        } else {
            none
        };
        let outer_next = if wide.reaches(layout.line_height, top, bottom) {
            hits_in_layout_line(text, layout, j, wide)
        } else {
            none
        };
        assert(inner + none =~= inner);
        assert(outer + none =~= outer);
        assert(ranges_within(text, none, start, end));
        if inner_next.len() > 0 {
            let line = layout.lines@[j];
            let chars = line_chars(text, line, start)->0;
            lemma_hits_need_mask(
                chars,
                chars.len() as int,
                line,
                start,
                layout.line_origin(j),
                layout.line_height,
                drag,
            );
            let p = choose|p: Point<T>| #[trigger] drag.mask.contains_spec(p);
            law_larger_mask_reaches_more(drag, mask, p, layout.line_height, top, bottom);
        }
        lemma_encloses_concat(text, outer, inner, outer_next, inner_next, 0, start, end);
    }
}

/// A smaller mask never selects more: what a drag selects through a mask lies within what
/// it selects through any mask that holds the first one.
pub proof fn law_smaller_mask_selects_no_more<T: OrderedLength>(
    text: Seq<char>,
    layout: TextLayout<T>,
    drag: Drag<T>,
    mask: Bounds<T>,
)
    requires
        byte_len(text) <= usize::MAX,
        within(drag.mask, mask),
    ensures
        match hull(hits_in_reach(text, layout, layout.lines@.len() as int, drag)) {
            Some(a) => match hull(
                hits_in_reach(text, layout, layout.lines@.len() as int, with_mask(drag, mask)),
            ) {
                Some(b) => b.start <= a.start && a.end <= b.end,
                None => false,
            },
            None => true,
        },
{
    let n = layout.lines@.len() as int;
    let wide = with_mask(drag, mask);
    let inner = hits_in_reach(text, layout, n, drag);
    let outer = hits_in_reach(text, layout, n, wide);
    lemma_mask_in_reach(text, layout, n, drag, mask);
    lemma_hits_in_reach_within(text, layout, n, drag);
    lemma_hits_in_reach_within(text, layout, n, wide);
    if inner.len() > 0 {
        lemma_range_in_text(text, inner, layout.line_start(n), 0);
        lemma_range_in_text(text, inner, layout.line_start(n), inner.len() - 1);
        lemma_range_in_text(text, outer, layout.line_start(n), 0);
        lemma_range_in_text(text, outer, layout.line_start(n), outer.len() - 1);
    }
}

proof fn lemma_range_in_text(text: Seq<char>, ranges: Seq<ByteRange>, end: int, m: int)
    requires
        ranges_within(text, ranges, 0, end),
        0 <= m < ranges.len(),
    ensures
        0 <= ranges[m].0 < ranges[m].1 <= byte_len(text),
{
    let k = index_at(text, ranges[m].1);
    assert(on_boundary(text, ranges[m].1));
    lemma_offset_monotone(text, k, text.len() as int);
}

/// Whether the centre of no character of a layout lies in a drag's mask.
pub open spec fn no_centre_visible<T: Length>(layout: TextLayout<T>, drag: Drag<T>) -> bool {
    forall|j: int, i: int| #![trigger layout.lines@[j].row_of(i)]
        0 <= j < layout.lines@.len() && 0 <= i <= layout.lines@[j].len
            ==> !drag.mask.contains_spec(
            drag.centre(
                layout.lines@[j].position_for_index(
                    layout.line_origin(j),
                    layout.line_height,
                    i,
                ),
                layout.lines@[j].width_at(drag.line_height, i),
            ),
        )
}

proof fn lemma_no_centre_no_hits<T: Length>(
    chars: Seq<char>,
    n: int,
    layout: TextLayout<T>,
    j: int,
    drag: Drag<T>,
)
    requires
        no_centre_visible(layout, drag),
        0 <= j < layout.lines@.len(),
    ensures
        hits_in_chars(
            chars,
            n,
            layout.lines@[j],
            layout.line_start(j),
            layout.line_origin(j),
            layout.line_height,
            drag,
        ) == Seq::<ByteRange>::empty(),
    decreases n,
{
    if n > 0 {
        lemma_no_centre_no_hits(chars, n - 1, layout, j, drag);
        let line = layout.lines@[j];
        let offset = offset_of(chars, n - 1) as int;
        let i = if offset < line.len {
            offset
        } else {
            line.len as int
        };
        let row = line.row_of(i);
    }
}

/// A drag selects nothing through a mask in which the centre of no character lies.
pub proof fn law_nothing_visible_nothing_selected<T: Length>(
    text: Seq<char>,
    layout: TextLayout<T>,
    n: int,
    drag: Drag<T>,
)
    requires
        no_centre_visible(layout, drag),
        0 <= n <= layout.lines@.len(),
    ensures
        hits_in_reach(text, layout, n, drag) == Seq::<ByteRange>::empty(),
        hull(hits_in_reach(text, layout, n, drag)) is None,
    decreases n,
{
    if n > 0 {
        law_nothing_visible_nothing_selected(text, layout, n - 1, drag);
        let line = layout.lines@[n - 1];
        if let Some(chars) = line_chars(text, line, layout.line_start(n - 1)) {
            lemma_no_centre_no_hits(chars, chars.len() as int, layout, n - 1, drag);
        }
        assert(Seq::<ByteRange>::empty() + Seq::<ByteRange>::empty()
            =~= Seq::<ByteRange>::empty());
    }
}

/// The sum of the lengths of the first `n` runs.
pub open spec fn runs_end(runs: Seq<TextRun>, n: int) -> int
    decreases n,
{
    if n <= 0 {
        0
    } else {
        runs_end(runs, n - 1) + runs[n - 1].len
    }
}

/// Whether highlights come one after the other in a text of `len` bytes, without overlap.
pub open spec fn in_order<H>(highlights: Seq<(Range<usize>, H)>, len: int) -> bool {
    &&& forall|n: int| #![trigger highlights[n]]
        0 <= n < highlights.len() ==> highlights[n].0.start <= highlights[n].0.end <= len
    &&& forall|m: int, n: int|
        0 <= m < n < highlights.len() ==> highlights[m].0.end <= highlights[n].0.start
}

proof fn lemma_runs_end_prefix(a: Seq<TextRun>, b: Seq<TextRun>, n: int)
    requires
        0 <= n <= a.len(),
    ensures
        runs_end(a + b, n) == runs_end(a, n),
    decreases n,
{
    if n > 0 {
        lemma_runs_end_prefix(a, b, n - 1);
        assert((a + b)[n - 1] == a[n - 1]);
    }
}

/// Whether each of some runs covers just the text between two highlights, or the
/// highlight that it names.
pub open spec fn runs_match<H>(runs: Seq<TextRun>, highlights: Seq<(Range<usize>, H)>) -> bool {
    forall|i: int| #![trigger runs[i]]
        0 <= i < runs.len() ==> match runs[i].highlight {
            Some(k) => {
                &&& k < highlights.len()
                &&& runs_end(runs, i) == highlights[k as int].0.start
                &&& runs_end(runs, i + 1) == highlights[k as int].0.end
            },
            None => forall|k: int| #![trigger highlights[k]]
                0 <= k < highlights.len() ==> highlights[k].0.end <= runs_end(runs, i)
                    || runs_end(runs, i + 1) <= highlights[k].0.start,
        }
}

proof fn lemma_runs_push<H>(runs: Seq<TextRun>, run: TextRun, highlights: Seq<(Range<usize>, H)>)
    requires
        runs_match(runs, highlights),
        match run.highlight {
            Some(k) => {
                &&& k < highlights.len()
                &&& runs_end(runs, runs.len() as int) == highlights[k as int].0.start
                &&& runs_end(runs, runs.len() as int) + run.len == highlights[k as int].0.end
            },
            None => forall|k: int| #![trigger highlights[k]]
                0 <= k < highlights.len() ==> highlights[k].0.end <= runs_end(
                    runs,
                    runs.len() as int,
                ) || runs_end(runs, runs.len() as int) + run.len <= highlights[k].0.start,
        },
    ensures
        runs_match(runs.push(run), highlights),
        runs_end(runs.push(run), runs.len() as int + 1) == runs_end(runs, runs.len() as int) + run.len,
{
    let all = runs.push(run);
    assert(all =~= runs + seq![run]);
    lemma_runs_end_prefix(runs, seq![run], runs.len() as int);
    assert forall|i: int| #![trigger all[i]] 0 <= i < all.len() implies match all[i].highlight {
        Some(k) => {
            &&& k < highlights.len()
            &&& runs_end(all, i) == highlights[k as int].0.start
            &&& runs_end(all, i + 1) == highlights[k as int].0.end
        },
        None => forall|k: int| #![trigger highlights[k]]
            0 <= k < highlights.len() ==> highlights[k].0.end <= runs_end(all, i) || runs_end(
                all,
                i + 1,
            ) <= highlights[k].0.start,
    } by {
        if i < runs.len() {
            lemma_runs_end_prefix(runs, seq![run], i);
            lemma_runs_end_prefix(runs, seq![run], i + 1);
            assert(all[i] == runs[i]);
        }
    }
}

proof fn lemma_runs_up_to<H>(highlights: Seq<(Range<usize>, H)>, len: int, n: int)
    requires
        in_order(highlights, len),
        0 <= n <= highlights.len() <= usize::MAX,
    ensures
        runs_match(runs_up_to(highlights, n), highlights),
        runs_end(runs_up_to(highlights, n), runs_up_to(highlights, n).len() as int)
            == styled_up_to(highlights, n),
    decreases n,
{
    if n > 0 {
        lemma_runs_up_to(highlights, len, n - 1);
        let before = runs_up_to(highlights, n - 1);
        let ix = styled_up_to(highlights, n - 1);
        let range = highlights[n - 1].0;
        let gap = plain_run(ix, range.start as int);
        if gap.len() > 0 {
            let run = gap[0];
            assert(before + gap =~= before.push(run));
            assert forall|k: int| #![trigger highlights[k]] 0 <= k < highlights.len() implies
                highlights[k].0.end <= ix || ix + run.len <= highlights[k].0.start by {
                if k < n - 2 {
                    assert(highlights[k].0.end <= highlights[n - 2].0.start);
                } else if k > n - 1 {
                    assert(range.end <= highlights[k].0.start);
                }
            }
            lemma_runs_push(before, run, highlights);
        } else {
            assert(before + gap =~= before);
            if n > 1 {
                assert(highlights[n - 2].0.end <= highlights[n - 1].0.start);
            }
        }
        lemma_runs_push(
            before + gap,
            TextRun { len: range_len(range), highlight: Some((n - 1) as usize) },
            highlights,
        );
    }
}

/// Where highlights come one after the other, the runs of a text cover it from its start
/// to its end without gap or overlap: each highlight is covered by the run that names it,
/// and runs without highlight touch none.
pub proof fn law_runs_cover_text<H>(highlights: Seq<(Range<usize>, H)>, len: int)
    requires
        0 <= len <= usize::MAX,
        highlights.len() <= usize::MAX,
        in_order(highlights, len),
    ensures
        runs_end(runs_of(highlights, len), runs_of(highlights, len).len() as int) == len,
        runs_match(runs_of(highlights, len), highlights),
{
    let n = highlights.len() as int;
    lemma_runs_up_to(highlights, len, n);
    let before = runs_up_to(highlights, n);
    let ix = styled_up_to(highlights, n);
    let gap = plain_run(ix, len);
    if gap.len() > 0 {
        let run = gap[0];
        assert(before + gap =~= before.push(run));
        assert forall|k: int| #![trigger highlights[k]] 0 <= k < highlights.len() implies
            highlights[k].0.end <= ix by {
            if k < n - 1 {
                assert(highlights[k].0.end <= highlights[n - 1].0.start);
            }
        }
        lemma_runs_push(before, run, highlights);
    } else {
        assert(before + gap =~= before);
    }
}

/// A selection is shown alike in whichever direction it was made.
pub proof fn law_quads_ignore_direction<T: Length>(
    selection: Selection,
    at_start: Option<Point<T>>,
    at_end: Option<Point<T>>,
    line_height: T,
    bounds: Bounds<T>,
)
    requires
        selection.start == selection.end ==> at_start == at_end,
    ensures
        selection_quads(selection, at_start, at_end, line_height, bounds) == selection_quads(
            Selection { start: selection.end, end: selection.start },
            at_end,
            at_start,
            line_height,
            bounds,
        ),
{
}

/// Nothing is selected unless a selection is being made, and none is made unless text can
/// be selected.
pub proof fn law_selection_needs_selectable_view<T: Length>(
    text: Seq<char>,
    view: Option<TextView<T>>,
    layout: TextLayout<T>,
    bounds: Bounds<T>,
    line_height: T,
    mask: Bounds<T>,
)
    ensures
        ({
            let (is_selectable, is_selection, selection) = selection_in_view(
                text,
                view,
                layout,
                bounds,
                line_height,
                mask,
            );
            &&& is_selection ==> is_selectable
            &&& selection is Some ==> is_selection
            &&& is_selectable == (view is Some && view->0.is_selectable)
        }),
{
}

/// A link is found at an offset if and only if the range of one contains it, and then it
/// is the first one.
pub proof fn law_first_link_wins<M>(links: Seq<(Range<usize>, M)>, offset: usize)
    ensures
        link_at(links, Some(offset)) is Some <==> exists|j: int| #![trigger links[j]]
            0 <= j < links.len() && links[j].0.start <= offset < links[j].0.end,
        forall|j: int| #![trigger links[j]]
            0 <= j < links.len() && links[j].0.start <= offset < links[j].0.end && (forall|i: int|
                #![trigger links[i]]
                0 <= i < j ==> !(links[i].0.start <= offset < links[i].0.end)) ==> link_at(
                links,
                Some(offset),
            ) == Some(links[j].1),
{
    lemma_link_from(links, offset, 0);
}

proof fn lemma_link_from<M>(links: Seq<(Range<usize>, M)>, offset: usize, from: int)
    requires
        0 <= from <= links.len(),
    ensures
        from <= link_from(links, offset, from) <= links.len(),
        forall|i: int| #![trigger links[i]]
            from <= i < link_from(links, offset, from) ==> !(links[i].0.start <= offset
                < links[i].0.end),
        ({
            let found = link_from(links, offset, from);
            found < links.len() ==> links[found].0.start <= offset < links[found].0.end
        }),
    decreases links.len() - from,
{
    if !(from >= links.len() || links[from].0.start <= offset < links[from].0.end) {
        lemma_link_from(links, offset, from + 1);
    }
}

/// A press that selects something selects the same once the view has remembered it.
pub proof fn law_press_is_remembered<T: Length>(
    text: Seq<char>,
    event: MouseDownEvent<T>,
    hit: Option<TextHit>,
    bounds: Bounds<T>,
    kind: TextViewMultiClickKind,
    selection: Selection,
    view: TextView<T>,
    layout: TextLayout<T>,
    line_height: T,
    mask: Bounds<T>,
)
    requires
        press_selects(text, event, hit, bounds) == Some((kind, selection)),
        view.is_selectable,
        !view.is_all_selected,
        view.multi_click_selection == Some((MultiClick { pos: event.position, kind, hit })),
    ensures
        selection_in_view(text, Some(view), layout, bounds, line_height, mask) == (
            true,
            true,
            Some(selection),
        ),
{
}

/// The text between the start and the end of a text is all of it.
pub proof fn law_whole_slice(text: Seq<char>)
    ensures
        text_slice(text, 0, byte_len(text) as int) == Some(text),
{
    lemma_index_at(text, 0);
    lemma_index_at(text, text.len() as int);
    assert(text.subrange(0, text.len() as int) =~= text);
}

} // verus!
