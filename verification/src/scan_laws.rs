//! Laws on the text that a scan finds, character by character.
use crate::geometry::Point;
use crate::layout::{TextLayout, WrappedLineLayout};
use crate::laws::{
    hits_in_text, law_scan_tests_every_character, lays_out, lemma_line_found, lemma_line_holding,
    line_holding, position_in_layout, rows_fit,
};
use crate::length::{Length, OrderedLength};
use crate::scan::{
    extended, hits_in_chars, hits_in_line, hits_in_reach, hull, lemma_slice_len, Drag,
};
use crate::selection::{drag_selects, Selection};
use crate::text::{byte_len, lemma_offset_monotone, offset_of, text_slice};
use vstd::prelude::*;

verus! {

/// Whether a drag selects what is drawn at byte `i` of a line: the centre of it must be in
/// the mask, and the drag go over it.
pub open spec fn selects_byte<T: Length>(
    drag: Drag<T>,
    line: WrappedLineLayout<T>,
    origin: Point<T>,
    row_height: T,
    i: int,
) -> bool {
    let pos = line.position_for_index(origin, row_height, i);
    let width = line.width_at(drag.line_height, i);
    let x = pos.x.plus_spec(width.half_spec());
    let y = pos.y.plus_spec(drag.line_height.half_spec());
    &&& drag.mask.origin.x.spans_spec(drag.mask.size.width, x)
    &&& drag.mask.origin.y.spans_spec(drag.mask.size.height, y)
    &&& drag_selects(pos, width, drag.start, drag.end, drag.line_height)
}

/// Whether a drag selects the `k`-th of the characters of a line and of its line break. The
/// break counts as drawn at the end of the line.
pub open spec fn selects_in_line<T: Length>(
    drag: Drag<T>,
    chars: Seq<char>,
    line: WrappedLineLayout<T>,
    origin: Point<T>,
    row_height: T,
    k: int,
) -> bool {
    let i = offset_of(chars, k) as int;
    selects_byte(
        drag,
        line,
        origin,
        row_height,
        if i <= line.len {
            i
        } else {
            line.len as int
        },
    )
}

proof fn lemma_hits_ends<T: Length>(
    chars: Seq<char>,
    n: int,
    line: WrappedLineLayout<T>,
    start: int,
    origin: Point<T>,
    row_height: T,
    drag: Drag<T>,
)
    requires
        0 <= n <= chars.len(),
    ensures
        ({
            let hits = hits_in_chars(chars, n, line, start, origin, row_height, drag);
            &&& hits.len() == 0 ==> forall|k: int|
                0 <= k < n ==> !#[trigger] selects_in_line(
                    drag,
                    chars,
                    line,
                    origin,
                    row_height,
                    k,
                )
            &&& hits.len() > 0 ==> exists|k: int|
                0 <= k < n && #[trigger] selects_in_line(drag, chars, line, origin, row_height, k)
                    && hits[0].0 == start + offset_of(chars, k) && forall|i: int|
                    0 <= i < k ==> !#[trigger] selects_in_line(
                        drag,
                        chars,
                        line,
                        origin,
                        row_height,
                        i,
                    )
            &&& hits.len() > 0 ==> exists|k: int|
                0 <= k < n && #[trigger] selects_in_line(drag, chars, line, origin, row_height, k)
                    && hits.last().1 == start + offset_of(chars, k + 1) && forall|i: int|
                    k < i < n ==> !#[trigger] selects_in_line(
                        drag,
                        chars,
                        line,
                        origin,
                        row_height,
                        i,
                    )
        }),
    decreases n,
{
    if n > 0 {
        lemma_hits_ends(chars, n - 1, line, start, origin, row_height, drag);
        let before = hits_in_chars(chars, n - 1, line, start, origin, row_height, drag);
        let hits = hits_in_chars(chars, n, line, start, origin, row_height, drag);
        if selects_in_line(drag, chars, line, origin, row_height, n - 1) {
            assert(hits.len() == before.len() + 1);
            if before.len() > 0 {
                assert(hits[0] == before[0]);
            }
        } else {
            assert(hits == before);
        }
    }
}

/// Where a line that starts at byte `start` of a text ends, its line break included; not
/// past the end of the text.
pub open spec fn line_stop<T>(text: Seq<char>, line: WrappedLineLayout<T>, start: int) -> int {
    if start + line.len + 1 <= byte_len(text) {
        start + line.len + 1
    } else {
        byte_len(text) as int
    }
}

/// A scan of a line leaves a selection as it was if the line is no part of the text, or if
/// the drag selects none of its characters.
pub proof fn law_scan_without_hits<T: Length>(
    text: Seq<char>,
    line: WrappedLineLayout<T>,
    start: int,
    origin: Point<T>,
    row_height: T,
    drag: Drag<T>,
    selection: Option<Selection>,
)
    requires
        forall|chars: Seq<char>, k: int|
            text_slice(text, start, line_stop(text, line, start)) == Some(chars) && 0 <= k
                < chars.len() ==> !#[trigger] selects_in_line(
                drag,
                chars,
                line,
                origin,
                row_height,
                k,
            ),
    ensures
        extended(selection, hits_in_line(text, line, start, origin, row_height, drag)) == selection,
{
    let stop = line_stop(text, line, start);
    if let Some(chars) = text_slice(text, start, stop) {
        lemma_hits_ends(chars, chars.len() as int, line, start, origin, row_height, drag);
    }
}

/// A scan of a line extends a selection up to the end of the last character of the line
/// that the drag selects. The selection keeps its start; a new one starts with the first
/// such character.
pub proof fn law_scan_extends_selection<T: Length>(
    text: Seq<char>,
    line: WrappedLineLayout<T>,
    start: int,
    origin: Point<T>,
    row_height: T,
    drag: Drag<T>,
    selection: Option<Selection>,
    chars: Seq<char>,
    first: int,
    last: int,
)
    requires
        byte_len(text) <= usize::MAX,
        text_slice(text, start, line_stop(text, line, start)) == Some(chars),
        0 <= first <= last < chars.len(),
        selects_in_line(drag, chars, line, origin, row_height, first),
        selects_in_line(drag, chars, line, origin, row_height, last),
        forall|k: int|
            0 <= k < first || last < k < chars.len() ==> !#[trigger] selects_in_line(
                drag,
                chars,
                line,
                origin,
                row_height,
                k,
            ),
    ensures
        ({
            let r = extended(
                selection,
                hits_in_line(text, line, start, origin, row_height, drag),
            );
            &&& r is Some
            &&& r->0.end == start + offset_of(chars, last + 1)
            &&& r->0.start == match selection {
                Some(s) => s.start as int,
                None => start + offset_of(chars, first),
            }
        }),
{
    let n = chars.len() as int;
    let stop = line_stop(text, line, start);
    lemma_hits_ends(chars, n, line, start, origin, row_height, drag);
    lemma_slice_len(text, start, stop);
    lemma_offset_monotone(chars, first, n);
    lemma_offset_monotone(chars, last + 1, n);
    let hits = hits_in_line(text, line, start, origin, row_height, drag);
    assert(hits == hits_in_chars(chars, n, line, start, origin, row_height, drag));
    let a = choose|k: int|
        0 <= k < n && #[trigger] selects_in_line(drag, chars, line, origin, row_height, k)
            && hits[0].0 == start + offset_of(chars, k) && forall|i: int|
            0 <= i < k ==> !#[trigger] selects_in_line(drag, chars, line, origin, row_height, i);
    assert(a == first);
    let b = choose|k: int|
        0 <= k < n && #[trigger] selects_in_line(drag, chars, line, origin, row_height, k)
            && hits.last().1 == start + offset_of(chars, k + 1) && forall|i: int|
            k < i < n ==> !#[trigger] selects_in_line(drag, chars, line, origin, row_height, i);
    assert(b == last);
}

/// Whether a drag selects, in line `j` of a layout, the byte at `offset` of the text.
pub open spec fn selects_offset<T: Length>(
    drag: Drag<T>,
    layout: TextLayout<T>,
    offset: int,
    j: int,
) -> bool {
    let line = layout.lines@[j];
    let i = offset - layout.line_start(j);
    &&& 0 <= j < layout.lines@.len()
    &&& 0 <= i <= line.len
    &&& selects_byte(drag, line, layout.line_origin(j), layout.line_height, i)
}

/// Whether a drag selects the `k`-th character of a text.
pub open spec fn selects_character<T: Length>(
    drag: Drag<T>,
    text: Seq<char>,
    layout: TextLayout<T>,
    k: int,
) -> bool {
    exists|j: int| #[trigger] selects_offset(drag, layout, offset_of(text, k) as int, j)
}

proof fn lemma_hits_in_text_ends<T: Length>(
    text: Seq<char>,
    n: int,
    layout: TextLayout<T>,
    drag: Drag<T>,
)
    requires
        0 <= n <= text.len(),
    ensures
        ({
            let hits = hits_in_text(text, n, layout, drag);
            &&& hits.len() == 0 ==> forall|k: int|
                0 <= k < n ==> !#[trigger] selects_character(drag, text, layout, k)
            &&& hits.len() > 0 ==> exists|k: int|
                0 <= k < n && #[trigger] selects_character(drag, text, layout, k) && hits[0].0
                    == offset_of(text, k) && forall|i: int|
                    0 <= i < k ==> !#[trigger] selects_character(drag, text, layout, i)
            &&& hits.len() > 0 ==> exists|k: int|
                0 <= k < n && #[trigger] selects_character(drag, text, layout, k) && hits.last().1
                    == offset_of(text, k + 1) && forall|i: int|
                    k < i < n ==> !#[trigger] selects_character(drag, text, layout, i)
        }),
    decreases n,
{
    if n > 0 {
        lemma_hits_in_text_ends(text, n - 1, layout, drag);
        let before = hits_in_text(text, n - 1, layout, drag);
        let hits = hits_in_text(text, n, layout, drag);
        let offset = offset_of(text, n - 1) as int;
        lemma_line_found(layout, offset, 0);
        if selects_character(drag, text, layout, n - 1) {
            let j = choose|j: int| #[trigger] selects_offset(drag, layout, offset, j);
            lemma_line_holding(layout, offset, j, 0);
            assert(hits =~= before.push((offset, offset_of(text, n) as int)));
            if before.len() > 0 {
                assert(hits[0] == before[0]);
            }
        } else {
            if position_in_layout(layout, offset) is Some {
                let j = line_holding(layout, offset, 0);
                assert(!selects_offset(drag, layout, offset, j));
            }
            assert(hits == before);
        }
    }
}

/// What a drag selects reaches from the start of the first character that it selects to
/// the end of the last one. Where it selects no character, there is no selection.
pub proof fn law_scan_spans_selected_characters<T: OrderedLength>(
    text: Seq<char>,
    layout: TextLayout<T>,
    drag: Drag<T>,
)
    requires
        byte_len(text) <= usize::MAX,
        lays_out(layout, text),
        rows_fit(layout, drag.line_height),
    ensures
        ({
            let r = hull(hits_in_reach(text, layout, layout.lines@.len() as int, drag));
            &&& r is Some <==> exists|k: int|
                0 <= k < text.len() && #[trigger] selects_character(drag, text, layout, k)
            &&& forall|k: int|
                0 <= k < text.len() && #[trigger] selects_character(drag, text, layout, k)
                    ==> r->0.start <= offset_of(text, k) && offset_of(text, k + 1) <= r->0.end
            &&& r is Some ==> exists|k: int|
                0 <= k < text.len() && #[trigger] selects_character(drag, text, layout, k)
                    && r->0.start == offset_of(text, k)
            &&& r is Some ==> exists|k: int|
                0 <= k < text.len() && #[trigger] selects_character(drag, text, layout, k)
                    && r->0.end == offset_of(text, k + 1)
        }),
{
    let n = text.len() as int;
    law_scan_tests_every_character(text, layout, drag);
    lemma_hits_in_text_ends(text, n, layout, drag);
    let hits = hits_in_text(text, n, layout, drag);
    if hits.len() > 0 {
        let a = choose|k: int|
            0 <= k < n && #[trigger] selects_character(drag, text, layout, k) && hits[0].0
                == offset_of(text, k) && forall|i: int|
                0 <= i < k ==> !#[trigger] selects_character(drag, text, layout, i);
        let b = choose|k: int|
            0 <= k < n && #[trigger] selects_character(drag, text, layout, k) && hits.last().1
                == offset_of(text, k + 1) && forall|i: int|
                k < i < n ==> !#[trigger] selects_character(drag, text, layout, i);
        lemma_offset_monotone(text, a, n);
        lemma_offset_monotone(text, b + 1, n);
        assert forall|k: int|
            0 <= k < n && #[trigger] selects_character(drag, text, layout, k) implies offset_of(
            text,
            a,
        ) <= offset_of(text, k) && offset_of(text, k + 1) <= offset_of(text, b + 1) by {
            lemma_offset_monotone(text, a, k);
            lemma_offset_monotone(text, k + 1, b + 1);
        }
    }
}

} // verus!
