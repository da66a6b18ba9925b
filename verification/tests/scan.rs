use inline_text::geometry::{point, Bounds, Point, Size};
use inline_text::layout::{Glyph, ShapedRun, TextLayout, WrapBoundary, WrappedLineLayout};
use inline_text::length::Length;
use inline_text::scan::{scan_line, scan_selection};
use inline_text::selection::{point_in_text_selection, Selection};

/// A length in floating point, as text toolkits have it.
#[derive(Clone, Copy, PartialEq, Debug)]
struct Px(f32);

fn px(value: f32) -> Px {
    Px(value)
}

impl Length for Px {
    fn zero_spec() -> Px {
        Px(0.)
    }

    fn plus_spec(self, other: Px) -> Px {
        self.plus(other)
    }

    fn minus_spec(self, other: Px) -> Px {
        self.minus(other)
    }

    fn half_spec(self) -> Px {
        self.half()
    }

    fn times_spec(self, n: usize) -> Px {
        self.times(n)
    }

    fn least_spec(self, other: Px) -> Px {
        self.least(other)
    }

    fn greatest_spec(self, other: Px) -> Px {
        self.greatest(other)
    }

    fn lt_spec(self, other: Px) -> bool {
        self.lt(other)
    }

    fn le_spec(self, other: Px) -> bool {
        self.le(other)
    }

    fn same_spec(self, other: Px) -> bool {
        self.same(other)
    }

    fn spans_spec(self, extent: Px, at: Px) -> bool {
        self.spans(extent, at)
    }

    fn zero() -> Px {
        Px(0.)
    }

    fn plus(self, other: Px) -> Px {
        Px(self.0 + other.0)
    }

    fn minus(self, other: Px) -> Px {
        Px(self.0 - other.0)
    }

    fn half(self) -> Px {
        Px(self.0 / 2.)
    }

    fn times(self, n: usize) -> Px {
        Px(self.0 * n as f32)
    }

    fn least(self, other: Px) -> Px {
        Px(self.0.min(other.0))
    }

    fn greatest(self, other: Px) -> Px {
        Px(self.0.max(other.0))
    }

    fn lt(self, other: Px) -> bool {
        self.0 < other.0
    }

    fn le(self, other: Px) -> bool {
        self.0 <= other.0
    }

    fn same(self, other: Px) -> bool {
        self.0 == other.0
    }

    fn spans(self, extent: Px, at: Px) -> bool {
        at.0 >= self.0 && at.0 < self.0 + extent.0
    }
}

/// A line in which every character is `advance` wide, wrapped before the characters at
/// the given byte offsets. Each character is a run of its own.
fn line(text: &str, advance: f32, row_height: f32, wraps: &[usize]) -> WrappedLineLayout<Px> {
    let mut runs = Vec::new();
    let mut boundaries = Vec::new();
    let mut x = 0.;
    for (index, _) in text.char_indices() {
        if wraps.contains(&index) {
            boundaries.push(WrapBoundary { run_ix: runs.len(), glyph_ix: 0 });
        }
        runs.push(ShapedRun { glyphs: vec![Glyph { index, x: px(x) }] });
        x += advance;
    }
    WrappedLineLayout {
        len: text.len(),
        width: px(x),
        height: px(row_height * (boundaries.len() + 1) as f32),
        runs,
        wrap_boundaries: boundaries,
    }
}

fn layout(text: &str, advance: f32, row_height: f32, wraps: &[&[usize]]) -> TextLayout<Px> {
    TextLayout {
        origin: point(px(0.), px(0.)),
        line_height: px(row_height),
        lines: text
            .split('\n')
            .enumerate()
            .map(|(j, part)| line(part, advance, row_height, wraps.get(j).copied().unwrap_or(&[])))
            .collect(),
    }
}

fn bounds(x: f32, y: f32, width: f32, height: f32) -> Bounds<Px> {
    Bounds { origin: point(px(x), px(y)), size: Size { width: px(width), height: px(height) } }
}

fn everything() -> Bounds<Px> {
    bounds(-10000., -10000., 20000., 20000.)
}

fn select(start: usize, end: usize) -> Option<Selection> {
    Some(Selection { start, end })
}

/// Where a layout draws the byte at `offset`.
fn position_for_index(layout: &TextLayout<Px>, offset: usize) -> Option<Point<Px>> {
    let mut top = layout.origin.y.0;
    let mut start = 0;
    for line in &layout.lines {
        if offset > start + line.len {
            top += line.height.0;
            start += line.len + 1;
            continue;
        }
        let i = offset - start;
        let x_for = |i: usize| {
            for run in &line.runs {
                for glyph in &run.glyphs {
                    if glyph.index >= i {
                        return glyph.x.0;
                    }
                }
            }
            line.width.0
        };
        let mut row_start = 0;
        for row in 0..=line.wrap_boundaries.len() {
            let row_end = match line.wrap_boundaries.get(row) {
                Some(b) => line.runs[b.run_ix].glyphs[b.glyph_ix].index,
                None => line.len,
            };
            if i <= row_end {
                let row_x = if row == 0 { 0. } else { x_for(row_start) };
                return Some(point(
                    px(layout.origin.x.0 + (x_for(i) - row_x)),
                    px(top + layout.line_height.0 * row as f32),
                ));
            }
            row_start = row_end;
        }
    }
    None
}

/// Tests every character of the text at its place.
fn scan_every_character(
    layout: &TextLayout<Px>,
    text: &str,
    start: Point<Px>,
    end: Point<Px>,
    line_height: Px,
    mask: Bounds<Px>,
) -> Option<Selection> {
    let mut selection: Option<Selection> = None;
    for (offset, c) in text.char_indices() {
        let Some(pos) = position_for_index(layout, offset) else {
            continue;
        };
        let mut width = line_height.half();
        if let Some(next) = position_for_index(layout, offset + 1) {
            if next.y == pos.y {
                width = next.x.minus(pos.x);
            }
        }
        let centre = point(pos.x.plus(width.half()), pos.y.plus(line_height.half()));
        if mask.contains(centre) && point_in_text_selection(pos, width, start, end, line_height) {
            let first = selection.map(|s| s.start).unwrap_or(offset);
            selection = Some(Selection { start: first, end: offset + c.len_utf8() });
        }
    }
    selection
}

#[test]
fn selects_part_of_a_line() {
    let text = "hello world";
    let layout = layout(text, 10., 20., &[]);
    let scan = |from: f32, to: f32| {
        scan_selection(
            &layout,
            text,
            point(px(from), px(5.)),
            point(px(to), px(15.)),
            px(20.),
            everything(),
        )
    };
    assert_eq!(scan(0., 50.), select(0, 5));
    assert_eq!(scan(50., 0.), select(0, 5));
    assert_eq!(scan(14., 16.), select(1, 2));
    assert_eq!(scan(16., 24.), None);
    assert_eq!(scan(60., 1000.), select(6, 11));
}

#[test]
fn selects_over_several_lines() {
    let text = "one\ntwo\nthree";
    let layout = layout(text, 10., 20., &[]);
    let scan = |a: Point<Px>, b: Point<Px>| {
        scan_selection(&layout, text, a, b, px(20.), everything())
    };
    // The line breaks count: they are drawn at the end of their line.
    assert_eq!(scan(point(px(20.), px(10.)), point(px(20.), px(50.))), select(2, 10));
    assert_eq!(scan(point(px(20.), px(50.)), point(px(20.), px(10.))), select(2, 10));
    assert_eq!(scan(point(px(0.), px(25.)), point(px(1000.), px(35.))), select(4, 8));
    assert_eq!(scan(point(px(0.), px(70.)), point(px(1000.), px(90.))), None);
}

#[test]
fn offsets_count_bytes() {
    let text = "\u{e9}\u{20ac}\u{1f600}x";
    let layout = layout(text, 10., 20., &[]);
    let scan = |from: f32, to: f32| {
        scan_selection(
            &layout,
            text,
            point(px(from), px(5.)),
            point(px(to), px(5.)),
            px(20.),
            everything(),
        )
    };
    assert_eq!(scan(0., 10.), select(0, 2));
    assert_eq!(scan(10., 20.), select(2, 5));
    assert_eq!(scan(20., 30.), select(5, 9));
    assert_eq!(scan(30., 40.), select(9, 10));
    assert_eq!(scan(10., 40.), select(2, 10));
}

#[test]
fn mask_clips_the_selection() {
    let text = "one\ntwo\nthree";
    let layout = layout(text, 10., 20., &[]);
    let whole = (point(px(0.), px(0.)), point(px(1000.), px(1000.)));
    let scan = |mask: Bounds<Px>| {
        scan_selection(&layout, text, whole.0, whole.1, px(20.), mask)
    };
    assert_eq!(scan(everything()), select(0, 13));
    assert_eq!(scan(bounds(0., 20., 1000., 20.)), select(4, 8));
    assert_eq!(scan(bounds(10., 40., 20., 20.)), select(9, 11));
    // What counts is the centre of a character.
    assert_eq!(scan(bounds(0., 31., 1000., 20.)), select(8, 13));
    assert_eq!(scan(bounds(0., 60., 1000., 20.)), None);
}

#[test]
fn wrapped_rows() {
    let text = "abcdef";
    let layout = layout(text, 10., 20., &[&[2, 4]]);
    let scan = |a: Point<Px>, b: Point<Px>| {
        scan_selection(&layout, text, a, b, px(20.), everything())
    };
    // The byte at which a row ends still counts to that row.
    assert_eq!(scan(point(px(0.), px(25.)), point(px(100.), px(26.))), select(3, 5));
    assert_eq!(scan(point(px(0.), px(45.)), point(px(100.), px(46.))), select(5, 6));
    assert_eq!(scan(point(px(0.), px(5.)), point(px(100.), px(6.))), select(0, 3));
}

#[test]
fn scan_agrees_with_testing_every_character() {
    let text = "alpha b\u{e9}ta\n\ngamma \u{20ac}\u{1f600} delta epsilon\nzeta";
    let texts = [
        layout(text, 7.3, 18., &[]),
        layout(text, 7.3, 18., &[&[6], &[], &[6, 13, 20], &[]]),
        layout(text, 0.7, 18.25, &[&[1, 2, 3], &[], &[9, 19], &[2]]),
    ];
    let masks = [everything(), bounds(0., 10., 60., 40.), bounds(13., 37., 90., 1.)];
    for layout in &texts {
        for mask in masks {
            for window_line_height in [17.5, 18., 19.] {
                for a in 0..8 {
                    for b in 0..8 {
                        let start = point(px(a as f32 * 11.5 - 5.), px(b as f32 * 14.2 - 3.));
                        let end = point(px(b as f32 * 12.1), px(a as f32 * 13.7));
                        let line_height = px(window_line_height);
                        assert_eq!(
                            scan_selection(layout, text, start, end, line_height, mask),
                            scan_every_character(layout, text, start, end, line_height, mask),
                        );
                    }
                }
            }
        }
    }
}

#[test]
fn selection_can_be_cut_out_of_the_text() {
    let text = "\u{e9}t\u{e9}\n\u{1f600}!";
    let layout = layout(text, 10., 20., &[]);
    for a in 0..10 {
        for b in 0..10 {
            let start = point(px(a as f32 * 5.), px(b as f32 * 5.));
            let end = point(px(b as f32 * 6.), px(a as f32 * 4.));
            let found = scan_selection(&layout, text, start, end, px(20.), everything());
            if let Some(s) = found {
                assert!(s.start < s.end);
                assert!(text.get(s.start..s.end).is_some());
            }
        }
    }
}

#[test]
fn line_that_does_not_match_the_text_is_ignored() {
    // The line would start inside a character.
    let text = "\u{e9}\u{e9}";
    let mut selection = None;
    let all = line(text, 10., 20., &[]);
    scan_line(
        text,
        &all,
        1,
        point(px(0.), px(0.)),
        point(px(0.), px(5.)),
        point(px(100.), px(5.)),
        px(20.),
        px(20.),
        everything(),
        &mut selection,
    );
    assert_eq!(selection, None);
    // The line would start past the end.
    scan_line(
        text,
        &all,
        9,
        point(px(0.), px(0.)),
        point(px(0.), px(5.)),
        point(px(100.), px(5.)),
        px(20.),
        px(20.),
        everything(),
        &mut selection,
    );
    assert_eq!(selection, None);
}

#[test]
fn line_extends_a_selection() {
    let text = "abc\ndef";
    let mut selection = select(1, 4);
    scan_line(
        text,
        &line("def", 10., 20., &[]),
        4,
        point(px(0.), px(20.)),
        point(px(0.), px(5.)),
        point(px(20.), px(25.)),
        px(20.),
        px(20.),
        everything(),
        &mut selection,
    );
    assert_eq!(selection, select(1, 6));
    // A line without hits leaves the selection alone.
    scan_line(
        text,
        &line("def", 10., 20., &[]),
        4,
        point(px(0.), px(200.)),
        point(px(0.), px(5.)),
        point(px(20.), px(25.)),
        px(20.),
        px(20.),
        everything(),
        &mut selection,
    );
    assert_eq!(selection, select(1, 6));
}

#[test]
fn layout_and_window_line_heights_differ() {
    // Rows are placed by the layout's height, and tested with the window's.
    let text = "a\nb\nc";
    let layout = layout(text, 10., 20., &[]);
    let drag = (point(px(0.), px(39.)), point(px(100.), px(39.)));
    assert_eq!(
        scan_selection(&layout, text, drag.0, drag.1, px(20.), everything()),
        select(2, 4),
    );
    assert_eq!(scan_selection(&layout, text, drag.0, drag.1, px(19.), everything()), None);
}

#[test]
fn text_past_the_lines_has_no_place() {
    let text = "one\ntwo\nthree";
    let layout = layout("one\ntwo", 10., 20., &[]);
    let start = point(px(0.), px(0.));
    let end = point(px(1000.), px(1000.));
    assert_eq!(
        scan_selection(&layout, text, start, end, px(20.), everything()),
        scan_every_character(&layout, text, start, end, px(20.), everything()),
    );
    assert_eq!(scan_selection(&layout, text, start, end, px(20.), everything()), select(0, 8));
    // Lines past the text select nothing of it.
    assert_eq!(scan_selection(&layout, "one", start, end, px(20.), everything()), select(0, 3));
}

#[test]
fn scan_ignores_the_direction_of_a_drag() {
    let text = "alpha b\u{e9}ta\ngamma delta";
    let layout = layout(text, 7.3, 18., &[&[6], &[3, 8]]);
    for a in 0..8 {
        for b in 0..8 {
            let start = point(px(a as f32 * 11.5), px(b as f32 * 14.2));
            let end = point(px(b as f32 * 12.1), px(a as f32 * 13.7));
            assert_eq!(
                scan_selection(&layout, text, start, end, px(18.), everything()),
                scan_selection(&layout, text, end, start, px(18.), everything()),
            );
        }
    }
}

#[test]
fn smaller_mask_selects_no_more() {
    let text = "one two\nthree four\nfive";
    let layout = layout(text, 10., 20., &[&[4], &[], &[]]);
    let start = point(px(15.), px(5.));
    let end = point(px(35.), px(70.));
    let masks = [
        bounds(30., 30., 5., 5.),
        bounds(20., 20., 30., 30.),
        bounds(0., 10., 80., 55.),
        everything(),
    ];
    for inner in 0..masks.len() {
        for outer in inner..masks.len() {
            let small = scan_selection(&layout, text, start, end, px(20.), masks[inner]);
            let large = scan_selection(&layout, text, start, end, px(20.), masks[outer]);
            if let Some(a) = small {
                let b = large.unwrap();
                assert!(b.start <= a.start && a.end <= b.end);
            }
        }
    }
    // No centre of a character lies in this one.
    let gap = bounds(0., 11., 80., 8.);
    assert_eq!(scan_selection(&layout, text, start, end, px(20.), gap), None);
}
