use inline_text::geometry::{point, Bounds, Point, Size};
use inline_text::length::Length;
use inline_text::selection::{
    point_in_text_selection, selection_for_multi_click, Selection, TextHit, TextViewMultiClickKind,
};

/// A length in floating point, as text toolkits have it.
#[derive(Clone, Copy, PartialEq, Debug)]
struct Px(f32);

fn px(value: f32) -> Px {
    Px(value)
}

impl Length for Px {
    fn zero_spec() -> Px {
        Px(0.)
    }

    fn plus_spec(self, other: Px) -> Px {
        self.plus(other)
    }

    fn minus_spec(self, other: Px) -> Px {
        self.minus(other)
    }

    fn half_spec(self) -> Px {
        self.half()
    }

    fn times_spec(self, n: usize) -> Px {
        self.times(n)
    }

    fn least_spec(self, other: Px) -> Px {
        self.least(other)
    }

    fn greatest_spec(self, other: Px) -> Px {
        self.greatest(other)
    }

    fn lt_spec(self, other: Px) -> bool {
        self.lt(other)
    }

    fn le_spec(self, other: Px) -> bool {
        self.le(other)
    }

    fn same_spec(self, other: Px) -> bool {
        self.same(other)
    }

    fn spans_spec(self, extent: Px, at: Px) -> bool {
        self.spans(extent, at)
    }

    fn zero() -> Px {
        Px(0.)
    }

    fn plus(self, other: Px) -> Px {
        Px(self.0 + other.0)
    }

    fn minus(self, other: Px) -> Px {
        Px(self.0 - other.0)
    }

    fn half(self) -> Px {
        Px(self.0 / 2.)
    }

    fn times(self, n: usize) -> Px {
        Px(self.0 * n as f32)
    }

    fn least(self, other: Px) -> Px {
        Px(self.0.min(other.0))
    }

    fn greatest(self, other: Px) -> Px {
        Px(self.0.max(other.0))
    }

    fn lt(self, other: Px) -> bool {
        self.0 < other.0
    }

    fn le(self, other: Px) -> bool {
        self.0 <= other.0
    }

    fn same(self, other: Px) -> bool {
        self.0 == other.0
    }

    fn spans(self, extent: Px, at: Px) -> bool {
        at.0 >= self.0 && at.0 < self.0 + extent.0
    }
}

#[test]
fn test_point_in_text_selection() {
    let line_height = px(20.);
    let char_width = px(10.);
    let start = point(px(50.), px(50.));
    let end = point(px(150.), px(150.));

    // First line but haft line height, true
    // | p --------|
    // | selection |
    // |-----------|
    assert!(point_in_text_selection(
        point(px(50.), px(40.)),
        char_width,
        start,
        end,
        line_height
    ));

    // First line in selection, true
    // | p --------|
    // | selection |
    // |-----------|
    assert!(point_in_text_selection(
        point(px(50.), px(50.)),
        char_width,
        start,
        end,
        line_height
    ));
    // First line, but left out of selection, false
    // p |-----------|
    //   | selection |
    //   |-----------|
    assert!(!point_in_text_selection(
        point(px(40.), px(50.)),
        char_width,
        start,
        end,
        line_height
    ));
    // First line but right out of selection, true
    // |-----------| p
    // | selection |
    // |-----------|
    assert!(point_in_text_selection(
        point(px(160.), px(50.)),
        char_width,
        start,
        end,
        line_height
    ));

    // Middle line in selection, true
    // |-----------|
    // |     p     |
    // |-----------|
    assert!(point_in_text_selection(
        point(px(100.), px(70.)),
        char_width,
        start,
        end,
        line_height
    ));
    // Middle line, but left out of selection, true
    //   |-----------|
    // p | selection |
    //   |-----------|
    assert!(point_in_text_selection(
        point(px(40.), px(70.)),
        char_width,
        start,
        end,
        line_height
    ));
    // Middle line, but right out of selection, true
    // |-----------|
    // | selection | p
    // |-----------|
    assert!(point_in_text_selection(
        point(px(160.), px(70.)),
        char_width,
        start,
        end,
        line_height
    ));

    // Last line in selection, true
    // |-----------|
    // | selection |
    // |------- p -|
    assert!(point_in_text_selection(
        point(px(100.), px(140.)),
        char_width,
        start,
        end,
        line_height
    ));
    // Last line, but left out of selection, true
    //
    //   |-----------|
    //   | selection |
    // p |-----------|
    assert!(point_in_text_selection(
        point(px(40.), px(140.)),
        char_width,
        start,
        end,
        line_height
    ));
    // Last line, but right out of selection, false
    // |-----------|
    // | selection |
    // |-----------| p
    assert!(!point_in_text_selection(
        point(px(160.), px(140.)),
        char_width,
        start,
        end,
        line_height
    ));

    // Out of vertical bounds (top), false
    //       p
    // |-----------|
    // | selection |
    // |-----------|
    assert!(!point_in_text_selection(
        point(px(100.), px(20.)),
        char_width,
        start,
        end,
        line_height
    ));
    // Out of vertical bounds (bottom), false
    // |-----------|
    // | selection |
    // |-----------|
    //       p
    assert!(!point_in_text_selection(
        point(px(100.), px(160.)),
        char_width,
        start,
        end,
        line_height
    ));
}

#[test]
fn test_point_in_text_selection_reversed_drag_direction() {
    let line_height = px(20.);
    let char_width = px(10.);

    // Mouse down on lower line then drag upward to x=150.
    // Top line should follow current mouse x, bottom line should keep anchor x.
    let start = point(px(80.), px(150.));
    let end = point(px(150.), px(50.));

    // On top line, selection starts from top cursor x (150), so x=140 should be excluded.
    assert!(!point_in_text_selection(
        point(px(140.), px(50.)),
        char_width,
        start,
        end,
        line_height
    ));
    assert!(point_in_text_selection(
        point(px(150.), px(50.)),
        char_width,
        start,
        end,
        line_height
    ));

    // On bottom line, selection ends at anchor x (80), so x=90 should be excluded.
    assert!(point_in_text_selection(
        point(px(75.), px(140.)),
        char_width,
        start,
        end,
        line_height
    ));
    assert!(!point_in_text_selection(
        point(px(80.), px(140.)),
        char_width,
        start,
        end,
        line_height
    ));
}

#[test]
fn test_point_in_text_selection_same_visual_line_with_different_y() {
    let line_height = px(20.);
    let char_width = px(10.);
    let start = point(px(100.), px(55.));
    let end = point(px(60.), px(58.));

    assert!(!point_in_text_selection(
        point(px(40.), px(50.)),
        char_width,
        start,
        end,
        line_height
    ));
    assert!(point_in_text_selection(
        point(px(70.), px(50.)),
        char_width,
        start,
        end,
        line_height
    ));
    assert!(!point_in_text_selection(
        point(px(110.), px(50.)),
        char_width,
        start,
        end,
        line_height
    ));
}

#[test]
fn test_point_in_text_selection_same_visual_line_with_reversed_y() {
    let line_height = px(20.);
    let char_width = px(10.);
    let start = point(px(60.), px(58.));
    let end = point(px(100.), px(55.));

    assert!(!point_in_text_selection(
        point(px(40.), px(50.)),
        char_width,
        start,
        end,
        line_height
    ));
    assert!(point_in_text_selection(
        point(px(70.), px(50.)),
        char_width,
        start,
        end,
        line_height
    ));
    assert!(!point_in_text_selection(
        point(px(110.), px(50.)),
        char_width,
        start,
        end,
        line_height
    ));
}

#[test]
fn drag_direction_does_not_matter() {
    let line_height = px(20.);
    let ends = [
        (point(px(50.), px(50.)), point(px(150.), px(150.))),
        (point(px(80.5), px(150.)), point(px(150.), px(50.25))),
        (point(px(100.), px(55.)), point(px(60.), px(58.))),
        (point(px(100.), px(55.)), point(px(60.), px(55.))),
    ];
    for (a, b) in ends {
        for x in 0..20 {
            for y in 0..20 {
                let pos = point(px(x as f32 * 10.5), px(y as f32 * 9.75));
                assert_eq!(
                    point_in_text_selection(pos, px(10.), a, b, line_height),
                    point_in_text_selection(pos, px(10.), b, a, line_height),
                );
            }
        }
    }
}

#[test]
fn drag_within_one_row_goes_by_x_alone() {
    for (a_y, b_y) in [(50., 50.), (50., 69.5), (69.9, 50.), (60., 55.)] {
        let a = point(px(30.), px(a_y));
        let b = point(px(60.), px(b_y));
        // The centre of the character counts, and the ends of the drag belong to it.
        for (x, selected) in [(24.5, false), (25., true), (40., true), (55., true), (55.5, false)] {
            assert_eq!(
                point_in_text_selection(point(px(x), px(50.)), px(10.), a, b, px(20.)),
                selected,
            );
        }
    }
}

#[test]
fn drag_selects_rows_in_between_as_a_whole() {
    let a = point(px(50.), px(10.));
    let b = point(px(60.), px(90.));
    for x in [-1000., 0., 55., 1000.] {
        assert!(point_in_text_selection(point(px(x), px(20.)), px(10.), a, b, px(20.)));
        assert!(point_in_text_selection(point(px(x), px(60.)), px(10.), a, b, px(20.)));
    }
}

#[test]
fn rows_that_only_touch_a_drag() {
    let a = point(px(50.), px(40.));
    let b = point(px(60.), px(80.));
    // A row that ends where the drag begins is not part of it; one that begins where the
    // drag ends is.
    assert!(!point_in_text_selection(point(px(55.), px(20.)), px(2.), a, b, px(20.)));
    assert!(point_in_text_selection(point(px(55.), px(80.)), px(2.), a, b, px(20.)));
    assert!(!point_in_text_selection(point(px(55.), px(80.5)), px(2.), a, b, px(20.)));
}

fn bounds(x: f32, y: f32, width: f32, height: f32) -> Bounds<Px> {
    Bounds { origin: point(px(x), px(y)), size: Size { width: px(width), height: px(height) } }
}

fn click(
    text: &str,
    hit: Option<TextHit>,
    pos: Point<Px>,
    kind: TextViewMultiClickKind,
) -> Option<Selection> {
    selection_for_multi_click(text, hit, bounds(10., 10., 100., 20.), pos, kind)
}

#[test]
fn double_click_selects_word() {
    let hit = Some(TextHit { offset: 7, word: Some(Selection { start: 6, end: 11 }) });
    let inside = point(px(50.), px(15.));
    assert_eq!(
        click("hello world", hit, inside, TextViewMultiClickKind::Word),
        Some(Selection { start: 6, end: 11 }),
    );
    let space = Some(TextHit { offset: 5, word: None });
    assert_eq!(click("hello world", space, inside, TextViewMultiClickKind::Word), None);
    assert_eq!(click("hello world", None, inside, TextViewMultiClickKind::Word), None);
    let outside = point(px(5.), px(15.));
    assert_eq!(click("hello world", hit, outside, TextViewMultiClickKind::Word), None);
}

#[test]
fn triple_click_selects_whole_text() {
    let hit = Some(TextHit { offset: 0, word: None });
    let inside = point(px(10.), px(10.));
    assert_eq!(
        click("h\u{e9}llo", hit, inside, TextViewMultiClickKind::Paragraph),
        Some(Selection { start: 0, end: 6 }),
    );
    assert_eq!(click("", hit, inside, TextViewMultiClickKind::Paragraph), None);
    assert_eq!(click("hello", None, inside, TextViewMultiClickKind::Paragraph), None);
    let below = point(px(50.), px(31.));
    assert_eq!(click("hello", hit, below, TextViewMultiClickKind::Paragraph), None);
}
