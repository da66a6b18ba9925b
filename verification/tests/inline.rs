use inline_text::geometry::{point, Bounds, Point, Size};
use inline_text::inline::{
    CursorStyle, Inline, InlineState, MouseDownEvent, MultiClick, PaintFrame, TextRun, TextView,
};
use inline_text::layout::{Glyph, ShapedRun, TextLayout, WrappedLineLayout};
use inline_text::length::{px, Length, Pixels};
use inline_text::selection::{Selection, TextHit, TextViewMultiClickKind};
use inline_text::text::{char_boundaries, len_utf8, slice_of, text_len};
use std::ops::Range;

fn pt(x: i32, y: i32) -> Point<Pixels> {
    point(px(x), px(y))
}

fn bounds(x: i32, y: i32, width: i32, height: i32) -> Bounds<Pixels> {
    Bounds { origin: pt(x, y), size: Size { width: px(width), height: px(height) } }
}

fn select(start: usize, end: usize) -> Option<Selection> {
    Some(Selection { start, end })
}

fn inline(
    text: &str,
    links: Vec<(Range<usize>, &'static str)>,
    highlights: Vec<(Range<usize>, u8)>,
) -> Inline<&'static str, u8> {
    let mut state = InlineState::default();
    state.set_text(text.to_string());
    Inline::new(Some(&state), links, highlights)
}

fn one_line(text: &str) -> TextLayout<Pixels> {
    let glyphs = text
        .char_indices()
        .enumerate()
        .map(|(n, (index, _))| Glyph { index, x: px(n as i32 * 10) })
        .collect();
    TextLayout {
        origin: pt(0, 0),
        line_height: px(20),
        lines: vec![WrappedLineLayout {
            len: text.len(),
            width: px(text.chars().count() as i32 * 10),
            height: px(20),
            runs: vec![ShapedRun { glyphs }],
            wrap_boundaries: vec![],
        }],
    }
}

#[test]
fn state_keeps_selection_when_text_is_set() {
    let mut state = InlineState::default();
    assert_eq!(state.text, "");
    assert_eq!(state.selection, None);
    assert_eq!(state.hovered_index, None);
    state.selection = select(1, 2);
    state.hovered_index = Some(3);
    state.set_text("abc".to_string());
    assert_eq!(state.text, "abc");
    assert_eq!(state.selection, select(1, 2));
    assert_eq!(state.hovered_index, Some(3));
}

#[test]
fn state_takes_over_a_click() {
    let mut state = InlineState::default();
    state.set_text("abc".to_string());
    let click = inline("abc", vec![], vec![])
        .mouse_down(&press(3), Some(TextHit { offset: 0, word: None }), bounds(0, 0, 60, 20))
        .unwrap();
    state.select(&click);
    assert_eq!(state.selection, select(0, 3));
    assert_eq!(state.text, "abc");
}

#[test]
fn text_comes_from_state() {
    assert_eq!(inline("abc", vec![], vec![]).text, "abc");
    let lost: Inline<u8, u8> = Inline::new(None, vec![(0..1, 7)], vec![(1..2, 8)]);
    assert_eq!(lost.text, "");
    assert_eq!(lost.links, vec![(0..1, 7)]);
    assert_eq!(lost.highlights, vec![(1..2, 8)]);
}

#[test]
fn first_link_wins() {
    let links = vec![(2..5, "a"), (4..8, "b"), (9..9, "c")];
    let find = |offset| Inline::<&str, u8>::link_for_position(offset, &links).copied();
    assert_eq!(find(None), None);
    assert_eq!(find(Some(1)), None);
    assert_eq!(find(Some(2)), Some("a"));
    assert_eq!(find(Some(4)), Some("a"));
    assert_eq!(find(Some(5)), Some("b"));
    assert_eq!(find(Some(8)), None);
    assert_eq!(find(Some(9)), None);
}

fn run(len: usize, highlight: Option<usize>) -> TextRun {
    TextRun { len, highlight }
}

#[test]
fn runs_cover_the_text() {
    assert_eq!(inline("hello", vec![], vec![]).text_runs(), vec![run(5, None)]);
    assert_eq!(inline("", vec![], vec![]).text_runs(), vec![]);
    assert_eq!(
        inline("hello world", vec![], vec![(2..4, 0), (4..6, 1), (8..11, 2)]).text_runs(),
        vec![run(2, None), run(2, Some(0)), run(2, Some(1)), run(2, None), run(3, Some(2))],
    );
    assert_eq!(
        inline("h\u{e9}llo", vec![], vec![(0..3, 0)]).text_runs(),
        vec![run(3, Some(0)), run(3, None)],
    );
}

#[test]
fn runs_of_odd_highlights() {
    // An empty one, one that goes backwards, and one that overlaps.
    assert_eq!(
        inline("abcdef", vec![], vec![(2..2, 0)]).text_runs(),
        vec![run(2, None), run(0, Some(0)), run(4, None)],
    );
    let backwards = Range { start: 4, end: 1 };
    assert_eq!(
        inline("abcdef", vec![], vec![(backwards, 0)]).text_runs(),
        vec![run(4, None), run(0, Some(0)), run(5, None)],
    );
    assert_eq!(
        inline("abcdef", vec![], vec![(0..4, 0), (2..6, 1)]).text_runs(),
        vec![run(4, Some(0)), run(4, Some(1))],
    );
}

fn view() -> TextView<Pixels> {
    TextView {
        is_selectable: true,
        is_all_selected: false,
        multi_click_selection: None,
        selection_points: None,
    }
}

fn laid_out(view: Option<&TextView<Pixels>>) -> (bool, bool, Option<Selection>) {
    let text = "hello";
    inline(text, vec![], vec![]).layout_selections(
        view,
        &one_line(text),
        bounds(0, 0, 50, 20),
        px(20),
        bounds(0, 0, 1000, 1000),
    )
}

#[test]
fn selection_in_a_view() {
    assert_eq!(laid_out(None), (false, false, None));
    assert_eq!(laid_out(Some(&view())), (true, false, None));

    let mut fixed = view();
    fixed.is_selectable = false;
    fixed.is_all_selected = true;
    assert_eq!(laid_out(Some(&fixed)), (false, false, None));

    let mut all = view();
    all.is_all_selected = true;
    all.selection_points = Some((pt(0, 5), pt(20, 5)));
    assert_eq!(laid_out(Some(&all)), (true, true, select(0, 5)));

    let mut dragged = view();
    dragged.selection_points = Some((pt(10, 5), pt(30, 5)));
    assert_eq!(laid_out(Some(&dragged)), (true, true, select(1, 3)));
    dragged.selection_points = Some((pt(10, 50), pt(30, 60)));
    assert_eq!(laid_out(Some(&dragged)), (true, true, None));

    let mut clicked = dragged;
    clicked.multi_click_selection = Some(MultiClick {
        pos: pt(12, 5),
        kind: TextViewMultiClickKind::Paragraph,
        hit: Some(TextHit { offset: 1, word: None }),
    });
    assert_eq!(laid_out(Some(&clicked)), (true, true, select(0, 5)));
}

#[test]
fn line_bounds_join_characters_of_a_row() {
    let element = inline("abcd", vec![], vec![]);
    let positions = vec![
        Some(pt(0, 0)),
        Some(pt(10, 0)),
        Some(pt(0, 20)),
        Some(pt(12, 20)),
        Some(pt(20, 20)),
    ];
    // The last character of a row is half a line wide.
    assert_eq!(
        element.text_line_bounds(&positions, px(20), bounds(0, 0, 1000, 1000)),
        vec![bounds(0, 0, 20, 20), bounds(0, 20, 20, 20)],
    );
    // Rows are clipped to the mask.
    assert_eq!(
        element.text_line_bounds(&positions, px(20), bounds(5, 10, 10, 15)),
        vec![bounds(5, 10, 10, 10), bounds(5, 20, 10, 5)],
    );
    assert_eq!(element.text_line_bounds(&positions, px(20), bounds(0, 40, 1000, 1000)), vec![]);
}

#[test]
fn line_bounds_skip_what_has_no_place() {
    let element = inline("abc", vec![], vec![]);
    let positions = vec![Some(pt(0, 0)), None, Some(pt(20, 0)), None];
    assert_eq!(
        element.text_line_bounds(&positions, px(20), bounds(0, 0, 1000, 1000)),
        vec![bounds(0, 0, 30, 20)],
    );
    let nowhere = vec![None, None, None, None];
    assert_eq!(
        element.text_line_bounds(&nowhere, px(20), bounds(0, 0, 1000, 1000)),
        vec![],
    );
}

#[test]
fn line_bounds_are_visible_rows() {
    let element = inline("abcdef", vec![], vec![]);
    let positions = vec![
        Some(pt(0, 0)),
        Some(pt(10, 0)),
        Some(pt(22, 0)),
        Some(pt(0, 20)),
        None,
        Some(pt(15, 40)),
        Some(pt(30, 40)),
    ];
    for x in -2..6 {
        for y in -2..6 {
            let mask = bounds(x * 7, y * 9, 25, 31);
            let places = element.text_line_bounds(&positions, px(20), mask);
            for place in &places {
                assert!(place.has_area());
                assert!(place.size.height.le(px(20)));
                assert_eq!(place.intersect(&mask), *place);
            }
            // Every visible character is covered, and the last one by the last place.
            let mut last_covered = true;
            for k in 0..6 {
                let Some(pos) = positions[k] else {
                    continue;
                };
                let width = match positions[k + 1] {
                    Some(next) if next.y == pos.y => next.x.minus(pos.x),
                    _ => px(10),
                };
                let size = Size { width, height: px(20) };
                let shown = Bounds { origin: pos, size }.intersect(&mask);
                if shown.has_area() {
                    assert!(places.iter().any(|place| place.union(&shown) == *place));
                    last_covered = places[places.len() - 1].union(&shown) == places[places.len() - 1];
                }
            }
            assert!(last_covered);
        }
    }
}

fn quads(
    selection: Selection,
    at_start: Option<Point<Pixels>>,
    at_end: Option<Point<Pixels>>,
) -> Vec<Bounds<Pixels>> {
    Inline::<u8, u8>::paint_selection(
        &selection,
        at_start,
        at_end,
        px(20),
        &bounds(5, 0, 100, 200),
    )
}

#[test]
fn selection_quads_by_rows() {
    let forwards = Selection { start: 2, end: 9 };
    assert_eq!(
        quads(forwards, Some(pt(10, 20)), Some(pt(40, 20))),
        vec![bounds(10, 20, 30, 20)],
    );
    assert_eq!(
        quads(forwards, Some(pt(10, 20)), Some(pt(40, 40))),
        vec![bounds(10, 20, 95, 20), bounds(5, 40, 35, 20)],
    );
    assert_eq!(
        quads(forwards, Some(pt(10, 20)), Some(pt(40, 100))),
        vec![bounds(10, 20, 95, 20), bounds(5, 40, 100, 60), bounds(5, 100, 35, 20)],
    );
}

#[test]
fn selection_quads_ignore_direction() {
    let forwards = Selection { start: 2, end: 9 };
    let backwards = Selection { start: 9, end: 2 };
    let a = Some(pt(10, 20));
    let b = Some(pt(40, 100));
    assert_eq!(quads(backwards, b, a), quads(forwards, a, b));
    assert_eq!(quads(forwards, a, None), vec![]);
    assert_eq!(quads(forwards, None, b), vec![]);
    assert_eq!(quads(backwards, None, None), vec![]);
}

fn frame(mouse_offset: Option<usize>, has_view: bool) -> PaintFrame<Pixels> {
    PaintFrame {
        bounds: bounds(0, 0, 100, 20),
        line_height: px(20),
        mask: bounds(0, 0, 1000, 1000),
        mouse_offset,
        selection_start: Some(pt(0, 0)),
        selection_end: Some(pt(10, 0)),
        positions: vec![Some(pt(0, 0)), Some(pt(10, 0)), Some(pt(20, 0))],
        has_view,
    }
}

#[test]
fn paint_of_selected_text() {
    let element = inline("ab", vec![(1..2, "url")], vec![]);
    let mut state = InlineState::default();
    let plan = element.paint(&mut state, true, true, select(0, 1), &frame(Some(1), true));
    assert_eq!(state.selection, select(0, 1));
    assert_eq!(plan.cursors, vec![CursorStyle::IBeam, CursorStyle::PointingHand]);
    assert_eq!(plan.selection_quads, vec![bounds(0, 0, 10, 20)]);
    assert_eq!(plan.text_bounds, Some(vec![bounds(0, 0, 20, 20)]));
    assert!(plan.listen_mouse_down);
    assert!(!plan.listen_mouse_up);
}

#[test]
fn paint_of_fixed_text() {
    let element = inline("ab", vec![(1..2, "url")], vec![]);
    let mut state = InlineState::default();
    state.selection = select(0, 2);
    let plan = element.paint(&mut state, false, false, None, &frame(Some(0), true));
    assert_eq!(state.selection, None);
    assert_eq!(plan.cursors, vec![]);
    assert_eq!(plan.selection_quads, vec![]);
    assert_eq!(plan.text_bounds, None);
    assert!(!plan.listen_mouse_down);
    assert!(plan.listen_mouse_up);
}

#[test]
fn paint_of_selectable_text_without_selection() {
    let element = inline("ab", vec![], vec![]);
    let mut state = InlineState::default();
    // Without a view, nobody asks where the characters are.
    let mut alone = frame(None, false);
    alone.positions.clear();
    let plan = element.paint(&mut state, true, false, None, &alone);
    assert_eq!(plan.cursors, vec![CursorStyle::IBeam]);
    assert_eq!(plan.text_bounds, None);
    assert!(plan.listen_mouse_down);
    assert!(plan.listen_mouse_up);
}

fn press(click_count: usize) -> MouseDownEvent<Pixels> {
    MouseDownEvent {
        is_bubble_phase: true,
        is_hovered: true,
        is_left_button: true,
        click_count,
        position: pt(15, 5),
    }
}

#[test]
fn kinds_of_presses() {
    let kind = |event: &MouseDownEvent<Pixels>| Inline::<u8, u8>::press_kind(event);
    assert_eq!(kind(&press(1)), None);
    assert_eq!(kind(&press(2)), Some(TextViewMultiClickKind::Word));
    assert_eq!(kind(&press(3)), Some(TextViewMultiClickKind::Paragraph));
    assert_eq!(kind(&press(4)), None);
    let mut right = press(2);
    right.is_left_button = false;
    assert_eq!(kind(&right), None);
}

#[test]
fn presses_select() {
    let element = inline("ab \u{e9}t\u{e9}", vec![], vec![]);
    let place = bounds(0, 0, 60, 20);
    let hit = Some(TextHit { offset: 4, word: Some(Selection { start: 3, end: 8 }) });

    let word = element.mouse_down(&press(2), hit, place).unwrap();
    assert_eq!(word.kind, TextViewMultiClickKind::Word);
    assert_eq!(word.selection, Selection { start: 3, end: 8 });
    assert_eq!(word.selected_text, "\u{e9}t\u{e9}");

    let paragraph = element.mouse_down(&press(3), hit, place).unwrap();
    assert_eq!(paragraph.kind, TextViewMultiClickKind::Paragraph);
    assert_eq!(paragraph.selection, Selection { start: 0, end: 8 });
    assert_eq!(paragraph.selected_text, "ab \u{e9}t\u{e9}");
}

#[test]
fn presses_that_select_nothing() {
    let element = inline("ab", vec![], vec![]);
    let place = bounds(0, 0, 60, 20);
    let hit = Some(TextHit { offset: 0, word: Some(Selection { start: 0, end: 2 }) });
    assert!(element.mouse_down(&press(1), hit, place).is_none());
    assert!(element.mouse_down(&press(4), hit, place).is_none());
    assert!(element.mouse_down(&press(2), None, place).is_none());
    assert!(element.mouse_down(&press(2), hit, bounds(100, 0, 60, 20)).is_none());
    let mut right = press(2);
    right.is_left_button = false;
    assert!(element.mouse_down(&right, hit, place).is_none());
    let mut capture = press(2);
    capture.is_bubble_phase = false;
    assert!(element.mouse_down(&capture, hit, place).is_none());
    let mut elsewhere = press(2);
    elsewhere.is_hovered = false;
    assert!(element.mouse_down(&elsewhere, hit, place).is_none());
}

#[test]
fn press_is_remembered_by_the_view() {
    let text = "hello";
    let element = inline(text, vec![], vec![]);
    let place = bounds(0, 0, 50, 20);
    let hit = Some(TextHit { offset: 1, word: Some(Selection { start: 0, end: 5 }) });
    let pressed = element.mouse_down(&press(2), hit, place).unwrap();
    let mut next = view();
    next.multi_click_selection =
        Some(MultiClick { pos: press(2).position, kind: pressed.kind, hit });
    assert_eq!(laid_out(Some(&next)), (true, true, Some(pressed.selection)));
}

#[test]
fn moves_notify_on_change() {
    let mut hovered = None;
    let mut moved = |bubble, over, offset| {
        let notify = Inline::<u8, u8>::mouse_move(&mut hovered, bubble, over, offset);
        (notify, hovered)
    };
    assert_eq!(moved(true, true, Some(3)), (true, Some(3)));
    assert_eq!(moved(true, true, Some(3)), (false, Some(3)));
    assert_eq!(moved(false, true, Some(4)), (false, Some(3)));
    assert_eq!(moved(true, false, Some(4)), (false, Some(3)));
    assert_eq!(moved(true, true, Some(4)), (true, Some(4)));
    assert_eq!(moved(true, true, None), (true, None));
    assert_eq!(moved(true, true, None), (false, None));
}

#[test]
fn releases_open_links() {
    let element = inline("ab", vec![(1..2, "url")], vec![]);
    assert_eq!(element.mouse_up(true, true, false, Some(1)), Some(&"url"));
    assert_eq!(element.mouse_up(true, true, false, Some(0)), None);
    assert_eq!(element.mouse_up(true, true, false, None), None);
    assert_eq!(element.mouse_up(true, true, true, Some(1)), None);
    assert_eq!(element.mouse_up(true, false, false, Some(1)), None);
    assert_eq!(element.mouse_up(false, true, false, Some(1)), None);
}

#[test]
fn byte_offsets() {
    let text = "a\u{e9}\u{20ac}\u{1f600}";
    assert_eq!(text_len(text), 10);
    assert_eq!(char_boundaries(text), vec![0, 1, 3, 6, 10]);
    assert_eq!(char_boundaries(""), vec![0]);
    for c in ['\0', '\u{7f}', '\u{80}', '\u{7ff}', '\u{800}', '\u{ffff}', '\u{10000}', '\u{10ffff}']
    {
        assert_eq!(len_utf8(c), c.len_utf8());
    }
    for start in 0..12 {
        for end in 0..12 {
            assert_eq!(slice_of(text, start, end), text.get(start..end));
        }
    }
}

#[test]
fn rectangles() {
    let a = bounds(0, 0, 10, 10);
    let b = bounds(5, 6, 10, 10);
    assert_eq!(a.intersect(&b), bounds(5, 6, 5, 4));
    assert_eq!(a.union(&b), bounds(0, 0, 15, 16));
    assert!(a.intersect(&b).has_area());
    assert!(!a.intersect(&bounds(10, 0, 5, 5)).has_area());
    assert!(!a.intersect(&bounds(30, 0, 5, 5)).has_area());
    assert!(a.contains(pt(0, 0)));
    assert!(a.contains(pt(9, 9)));
    assert!(!a.contains(pt(10, 5)));
    assert!(!a.contains(pt(5, 10)));
    assert!(!a.contains(pt(-1, 5)));
    assert_eq!(b.left(), px(5));
    assert_eq!(b.top(), px(6));
    assert_eq!(b.right(), px(15));
    assert_eq!(b.bottom(), px(16));
}

#[test]
fn fixed_point_lengths() {
    assert_eq!(px(3).units, 192);
    assert_eq!(px(3).half().units, 96);
    assert_eq!(Pixels { units: -3 }.half(), Pixels { units: -2 });
    assert_eq!(px(3).plus(px(4)), px(7));
    assert_eq!(px(3).minus(px(4)), px(-1));
    assert_eq!(px(3).times(4), px(12));
    assert_eq!(px(3).least(px(-4)), px(-4));
    assert_eq!(px(3).greatest(px(-4)), px(3));
    let most = Pixels { units: i64::MAX };
    let least = Pixels { units: i64::MIN };
    assert_eq!(most.plus(px(1)), most);
    assert_eq!(least.minus(px(1)), least);
    assert_eq!(least.times(usize::MAX), least);
    assert_eq!(most.times(usize::MAX), most);
    assert!(px(1).lt(px(2)) && !px(2).lt(px(2)));
    assert!(px(2).le(px(2)) && !px(3).le(px(2)));
    assert!(px(2).same(px(2)) && !px(2).same(px(3)));
    assert!(px(2).spans(px(2), px(3)) && !px(2).spans(px(2), px(4)));
}
