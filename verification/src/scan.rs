//! The text that a drag selects in a layout.
use crate::geometry::{point, Bounds, Point};
use crate::layout::{
    glyph_from, glyphs_of, lemma_glyph_resume, lemma_line_start_monotone, lemma_row_resume, row_from,
    row_start, Glyph, ShapedRun, TextLayout, WrappedLineLayout,
};
use crate::laws::law_selection_is_part_of_text;
use crate::length::Length;
use crate::selection::{drag_selects, point_in_text_selection, Selection};
use crate::text::{
    byte_len, index_at, lemma_offset_monotone, lemma_offset_subrange, len_utf8, offset_of, slice_of,
    text_len, text_slice, utf8_width,
};
use vstd::prelude::*;

verus! {

/// A drag over a window.
#[derive(PartialEq, Debug)]
pub struct Drag<T> {
    /// Where the drag started.
    pub start: Point<T>,
    /// Where it is now.
    pub end: Point<T>,
    /// The height of a line in the window.
    pub line_height: T,
    /// The part of the window that is visible.
    pub mask: Bounds<T>,
}

impl<T: Length> Drag<T> {
    /// The centre of a character that is drawn `width` wide at `pos`.
    pub open spec fn centre(self, pos: Point<T>, width: T) -> Point<T> {
        Point {
            x: pos.x.plus_spec(width.half_spec()),
            y: pos.y.plus_spec(self.line_height.half_spec()),
        }
    }

    /// Whether the drag selects a character that is drawn `width` wide at `pos`: its
    /// centre must be visible, and the character within the selection.
    pub open spec fn hits(self, pos: Point<T>, width: T) -> bool {
        &&& self.mask.contains_spec(self.centre(pos, width))
        &&& drag_selects(pos, width, self.start, self.end, self.line_height)
    }

    /// Whether the drag selects the character at byte `i` of a line.
    pub open spec fn hits_index(
        self,
        line: WrappedLineLayout<T>,
        origin: Point<T>,
        row_height: T,
        i: int,
    ) -> bool {
        self.hits(
            line.position_for_index(origin, row_height, i),
            line.width_at(self.line_height, i),
        )
    }

    /// Whether a line from `top` to `bottom` comes near enough to the drag and to the
    /// mask for its characters to be looked at.
    pub open spec fn reaches(self, row_height: T, top: T, bottom: T) -> bool {
        let slack = self.line_height.greatest_spec(row_height);
        &&& self.start.y.least_spec(self.end.y).le_spec(bottom.plus_spec(slack))
        &&& top.le_spec(self.start.y.greatest_spec(self.end.y))
        &&& self.mask.origin.y.le_spec(bottom.plus_spec(slack))
        &&& top.le_spec(self.mask.bottom_right_spec().y.plus_spec(slack))
    }
}

/// A range of byte offsets.
pub type ByteRange = (int, int);

/// The selected ones among the first `n` characters of a line, in reading order. `chars`
/// are the characters of the line with its line break, and `start` is the offset of the
/// line in the text. The line break counts as drawn at the end of the line.
pub open spec fn hits_in_chars<T: Length>(
    chars: Seq<char>,
    n: int,
    line: WrappedLineLayout<T>,
    start: int,
    origin: Point<T>,
    row_height: T,
    drag: Drag<T>,
) -> Seq<ByteRange>
    decreases n,
{
    if n <= 0 {
        Seq::empty()
    } else {
        let before = hits_in_chars(chars, n - 1, line, start, origin, row_height, drag);
        let offset = offset_of(chars, n - 1) as int;
        let i = if offset < line.len {
            offset
        } else {
            line.len as int
        };
        if drag.hits_index(line, origin, row_height, i) {
            before.push((start + offset, start + offset + utf8_width(chars[n - 1])))
        } else {
            before
        }
    }
}

/// The characters of a line that starts at byte `start` of `text`, with its line break.
pub open spec fn line_chars<T>(text: Seq<char>, line: WrappedLineLayout<T>, start: int) -> Option<
    Seq<char>,
> {
    let end = start + line.len + 1;
    text_slice(
        text,
        start,
        if end < byte_len(text) {
            end
        } else {
            byte_len(text) as int
        },
    )
}

/// The characters of a line that a drag selects, in reading order.
pub open spec fn hits_in_line<T: Length>(
    text: Seq<char>,
    line: WrappedLineLayout<T>,
    start: int,
    origin: Point<T>,
    row_height: T,
    drag: Drag<T>,
) -> Seq<ByteRange> {
    match line_chars(text, line, start) {
        Some(chars) => hits_in_chars(
            chars,
            chars.len() as int,
            line,
            start,
            origin,
            row_height,
            drag,
        ),
        None => Seq::empty(),
    }
}

/// The characters that a drag selects in the first `n` lines of a layout, in reading
/// order, if only the lines that it reaches are looked at.
pub open spec fn hits_in_reach<T: Length>(
    text: Seq<char>,
    layout: TextLayout<T>,
    n: int,
    drag: Drag<T>,
) -> Seq<ByteRange>
    decreases n,
{
    if n <= 0 {
        Seq::empty()
    } else {
        let before = hits_in_reach(text, layout, n - 1, drag);
        if drag.reaches(layout.line_height, layout.line_top(n - 1), layout.line_top(n)) {
            before + hits_in_line(
                text,
                layout.lines@[n - 1],
                layout.line_start(n - 1),
                layout.line_origin(n - 1),
                layout.line_height,
                drag,
            )
        } else {
            before
        }
    }
}

/// A selection, extended over ranges in reading order: it keeps its start, or gets that
/// of the first range, and ends with the last one.
pub open spec fn extended(selection: Option<Selection>, ranges: Seq<ByteRange>) -> Option<
    Selection,
> {
    if ranges.len() == 0 {
        selection
    } else {
        Some(
            Selection {
                start: match selection {
                    Some(s) => s.start,
                    None => ranges[0].0 as usize,
                },
                end: ranges.last().1 as usize,
            },
        )
    }
}

/// The selection from the first to the last of some ranges.
pub open spec fn hull(ranges: Seq<ByteRange>) -> Option<Selection> {
    extended(None, ranges)
}

proof fn lemma_extended_concat(selection: Option<Selection>, a: Seq<ByteRange>, b: Seq<ByteRange>)
    ensures
        extended(extended(selection, a), b) == extended(selection, a + b),
{
    if a.len() == 0 {
        assert(a + b =~= b);
    } else if b.len() == 0 {
        assert(a + b =~= a);
    }
}

/// A slice is as long as the distance between its offsets.
pub proof fn lemma_slice_len(text: Seq<char>, start: int, end: int)
    requires
        text_slice(text, start, end) is Some,
    ensures
        start + byte_len(text_slice(text, start, end)->0) == end,
{
    let i = index_at(text, start);
    let j = index_at(text, end);
    if j < i {
        lemma_offset_monotone(text, j, i);
    }
    lemma_offset_subrange(text, i, j, j - i);
}

fn collect_glyphs<T: Length>(line: &WrappedLineLayout<T>) -> (glyphs: Vec<Glyph<T>>)
    ensures
        glyphs@ == line.glyphs(),
{
    let mut glyphs: Vec<Glyph<T>> = Vec::new();
    let mut r: usize = 0;
    assert(line.runs@.take(0) =~= Seq::<ShapedRun<T>>::empty());
    while r < line.runs.len()
        invariant
            r <= line.runs@.len(),
            glyphs@ == glyphs_of(line.runs@.take(r as int)),
        decreases line.runs@.len() - r,
    {
        let run = &line.runs[r];
        let ghost before = glyphs@;
        let mut g: usize = 0;
        while g < run.glyphs.len()
            invariant
                g <= run.glyphs@.len(),
                glyphs@ == before + run.glyphs@.take(g as int),
            decreases run.glyphs@.len() - g,
        {
            glyphs.push(run.glyphs[g]);
            g = g + 1;
        }
        proof {
            assert(run.glyphs@.take(g as int) =~= run.glyphs@);
            assert(line.runs@.take(r + 1).drop_last() =~= line.runs@.take(r as int));
        }
        r = r + 1;
    }
    assert(line.runs@.take(r as int) =~= line.runs@);
    glyphs
}

fn collect_row_ends<T: Length>(line: &WrappedLineLayout<T>) -> (ends: Vec<usize>)
    requires
        line.wf(),
    ensures
        ends@ == line.row_ends(),
{
    let mut ends: Vec<usize> = Vec::new();
    let mut j: usize = 0;
    while j < line.wrap_boundaries.len()
        invariant
            line.wf(),
            j <= line.wrap_boundaries@.len(),
            ends@ == line.row_ends().take(j as int),
        decreases line.wrap_boundaries@.len() - j,
    {
        let boundary = line.wrap_boundaries[j];
        let end = line.runs[boundary.run_ix].glyphs[boundary.glyph_ix].index;
        ends.push(end);
        assert(ends@ =~= line.row_ends().take(j + 1));
        j = j + 1;
    }
    ends.push(line.len);
    assert(ends@ =~= line.row_ends());
    ends
}

/// Where byte `i` starts, looked up from the `cursor`-th glyph on. The cursor moves to
/// the glyph that was found.
fn x_at<T: Length>(glyphs: &Vec<Glyph<T>>, width: T, i: usize, cursor: &mut usize) -> (x: T)
    requires
        *old(cursor) <= glyphs@.len(),
    ensures
        *final(cursor) == glyph_from(glyphs@, i as int, *old(cursor) as int),
        *final(cursor) <= glyphs@.len(),
        x == (if *final(cursor) < glyphs@.len() {
            glyphs@[*final(cursor) as int].x
        } else {
            width
        }),
{
    let ghost from = *cursor as int;
    while *cursor < glyphs.len() && glyphs[*cursor].index < i
        invariant
            *cursor <= glyphs@.len(),
            glyph_from(glyphs@, i as int, *cursor as int) == glyph_from(glyphs@, i as int, from),
        decreases glyphs@.len() - *cursor,
    {
        *cursor = *cursor + 1;
    }
    if *cursor < glyphs.len() {
        glyphs[*cursor].x
    } else {
        width
    }
}

/// Runs the selection test over the characters of one line of `text`, extending
/// `selection` with any hits.
///
/// `line_start_ix` is the line's byte offset in the text and `line_origin` its top left
/// corner. The positions of the characters come from a single pass over the glyphs.
pub fn scan_line<T: Length>(
    text: &str,
    line: &WrappedLineLayout<T>,
    line_start_ix: usize,
    line_origin: Point<T>,
    selection_start: Point<T>,
    selection_end: Point<T>,
    line_height: T,
    layout_line_height: T,
    mask_bounds: Bounds<T>,
    selection: &mut Option<Selection>,
)
    requires
        line.wf(),
        line_start_ix + line.len + 1 <= usize::MAX,
    ensures
        byte_len(text@) <= usize::MAX,
        *final(selection) == extended(
            *old(selection),
            hits_in_line(
                text@,
                *line,
                line_start_ix as int,
                line_origin,
                layout_line_height,
                (Drag {
                    start: selection_start,
                    end: selection_end,
                    line_height,
                    mask: mask_bounds,
                }),
            ),
        ),
{
    let ghost drag = Drag {
        start: selection_start,
        end: selection_end,
        line_height,
        mask: mask_bounds,
    };
    let len = line.len;
    let glyphs = collect_glyphs(line);
    let width = line.width;
    let ends = collect_row_ends(line);
    let mut cur_cursor: usize = 0;
    let mut next_cursor: usize = 0;
    let mut row_cursor: usize = 0;
    // The wrapped row that the current character falls on, and where it starts.
    let mut row: usize = 0;
    let mut row_start_x = T::zero();

    // The bytes of the line and its trailing newline, which the layout places at the end
    // of the line.
    let text_end = text_len(text);
    let line_end = line_start_ix + len + 1;
    let scan_end = if line_end < text_end {
        line_end
    } else {
        text_end
    };
    let slice = match slice_of(text, line_start_ix, scan_end) {
        Some(slice) => slice,
        None => {
            return ;
        },
    };
    let ghost chars = slice@;
    let ghost initial = *selection;
    let ghost mut last_i: int = 0;
    let ghost mut last_next: int = 0;
    let mut rel: usize = 0;
    proof {
        lemma_slice_len(text@, line_start_ix as int, scan_end as int);
        assert(glyph_from(glyphs@, 0, 0) == 0);
        assert(row_from(ends@, 0, 0) == 0);
        assert(row_start(ends@, 0) == 0);
    }
    for c in it: slice.chars()
        invariant
            it.seq() == chars,
            len == line.len,
            width == line.width,
            glyphs@ == line.glyphs(),
            ends@ == line.row_ends(),
            ends@.len() > 0,
            line_start_ix + byte_len(chars) == scan_end,
            rel == offset_of(chars, it.index()),
            drag == (Drag {
                start: selection_start,
                end: selection_end,
                line_height,
                mask: mask_bounds,
            }),
            0 <= last_i <= rel,
            last_i <= len,
            0 <= last_next <= last_i + 1,
            cur_cursor == glyph_from(glyphs@, last_i, 0),
            cur_cursor <= glyphs@.len(),
            next_cursor == glyph_from(glyphs@, last_next, 0),
            next_cursor <= glyphs@.len(),
            row == row_from(ends@, last_i, 0),
            row < ends@.len(),
            row_cursor == glyph_from(glyphs@, row_start(ends@, row as int), 0),
            row_cursor <= glyphs@.len(),
            row_start_x == line.row_start_x(row as int),
            *selection == extended(
                initial,
                hits_in_chars(
                    chars,
                    it.index(),
                    *line,
                    line_start_ix as int,
                    line_origin,
                    layout_line_height,
                    drag,
                ),
            ),
    {
        proof {
            lemma_offset_monotone(chars, it.index() + 1, chars.len() as int);
        }
        let i = if rel < len {
            rel
        } else {
            len
        };
        proof {
            lemma_row_resume(ends@, last_i, i as int);
        }
        while i > ends[row] && row < ends.len() - 1
            invariant
                row < ends@.len(),
                width == line.width,
                glyphs@ == line.glyphs(),
                ends@ == line.row_ends(),
                row_from(ends@, i as int, row as int) == row_from(ends@, i as int, 0),
                row_cursor == glyph_from(glyphs@, row_start(ends@, row as int), 0),
                row_cursor <= glyphs@.len(),
                row_start_x == line.row_start_x(row as int),
            decreases ends@.len() - row,
        {
            let boundary = ends[row];
            proof {
                lemma_glyph_resume(glyphs@, row_start(ends@, row as int), boundary as int);
            }
            row = row + 1;
            row_start_x = x_at(&glyphs, width, boundary, &mut row_cursor);
        }
        proof {
            lemma_glyph_resume(glyphs@, last_i, i as int);
            lemma_glyph_resume(glyphs@, last_next, i + 1);
            last_i = i as int;
        }
        let x = x_at(&glyphs, width, i, &mut cur_cursor).minus(row_start_x);
        let pos = point(
            line_origin.x.plus(x),
            line_origin.y.plus(layout_line_height.times(row)),
        );

        // A character that a wrap follows has no next position on its row.
        let char_width = if i < ends[row] {
            proof {
                last_next = i + 1;
            }
            x_at(&glyphs, width, i + 1, &mut next_cursor).minus(row_start_x).minus(x)
        } else {
            line_height.half()
        };
        let char_center = point(pos.x.plus(char_width.half()), pos.y.plus(line_height.half()));
        if mask_bounds.contains(char_center) && point_in_text_selection(
            pos,
            char_width,
            selection_start,
            selection_end,
            line_height,
        ) {
            let offset = line_start_ix + rel;
            let start = match *selection {
                Some(s) => s.start,
                None => offset,
            };
            *selection = Some(Selection { start, end: offset + len_utf8(c) });
        }
        rel = rel + len_utf8(c);
    }
}

/// The byte range of `text` covered by a drag, clipped to `mask_bounds`: from the first
/// to the last character that the drag selects.
///
/// Rows are as high as the layout says, while the selection test goes by
/// `line_height`, that of the window. Lines that the drag or the mask does not reach are
/// skipped without a look at their characters.
pub fn scan_selection<T: Length>(
    text_layout: &TextLayout<T>,
    text: &str,
    selection_start: Point<T>,
    selection_end: Point<T>,
    line_height: T,
    mask_bounds: Bounds<T>,
) -> (r: Option<Selection>)
    requires
        text_layout.wf(),
    ensures
        r == hull(
            hits_in_reach(
                text@,
                *text_layout,
                text_layout.lines@.len() as int,
                (Drag {
                    start: selection_start,
                    end: selection_end,
                    line_height,
                    mask: mask_bounds,
                }),
            ),
        ),
        r is Some ==> byte_len(text@) <= usize::MAX,
        r is Some ==> r->0.start < r->0.end <= byte_len(text@) && text_slice(
            text@,
            r->0.start as int,
            r->0.end as int,
        ) is Some,
{
    let ghost drag = Drag {
        start: selection_start,
        end: selection_end,
        line_height,
        mask: mask_bounds,
    };
    let origin = text_layout.origin;
    let layout_line_height = text_layout.line_height;
    let sel_top = selection_start.y.least(selection_end.y);
    let sel_bottom = selection_start.y.greatest(selection_end.y);
    let slack = line_height.greatest(layout_line_height);
    let mut selection: Option<Selection> = None;
    let mut line_origin_y = origin.y;
    let mut line_start_ix: usize = 0;
    let mut j: usize = 0;
    while j < text_layout.lines.len()
        invariant
            text_layout.wf(),
            j <= text_layout.lines@.len(),
            origin == text_layout.origin,
            layout_line_height == text_layout.line_height,
            sel_top == selection_start.y.least_spec(selection_end.y),
            sel_bottom == selection_start.y.greatest_spec(selection_end.y),
            slack == line_height.greatest_spec(layout_line_height),
            line_start_ix == text_layout.line_start(j as int),
            line_origin_y == text_layout.line_top(j as int),
            drag == (Drag {
                start: selection_start,
                end: selection_end,
                line_height,
                mask: mask_bounds,
            }),
            selection == hull(hits_in_reach(text@, *text_layout, j as int, drag)),
            selection is Some ==> byte_len(text@) <= usize::MAX,
        decreases text_layout.lines@.len() - j,
    {
        let line = &text_layout.lines[j];
        let line_bottom = line_origin_y.plus(line.height);
        proof {
            lemma_line_start_monotone(*text_layout, j + 1, text_layout.lines@.len() as int);
        }
        let in_selection_band = sel_top.le(line_bottom.plus(slack)) && line_origin_y.le(sel_bottom);
        let in_mask_band = mask_bounds.top().le(line_bottom.plus(slack)) && line_origin_y.le(
            mask_bounds.bottom().plus(slack),
        );
        if in_selection_band && in_mask_band {
            proof {
                lemma_extended_concat(
                    None,
                    hits_in_reach(text@, *text_layout, j as int, drag),
                    hits_in_line(
                        text@,
                        *line,
                        line_start_ix as int,
                        text_layout.line_origin(j as int),
                        layout_line_height,
                        drag,
                    ),
                );
            }
            scan_line(
                text,
                line,
                line_start_ix,
                point(origin.x, line_origin_y),
                selection_start,
                selection_end,
                line_height,
                layout_line_height,
                mask_bounds,
                &mut selection,
            );
        }
        line_origin_y = line_bottom;
        line_start_ix = line_start_ix + line.len + 1;
        j = j + 1;
    }
    proof {
        if selection is Some {
            law_selection_is_part_of_text(text@, *text_layout, drag);
        }
    }
    selection
}

} // verus!
