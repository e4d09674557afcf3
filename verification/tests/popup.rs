use herdr::api::schema::{PopupBorderStyle, PopupBreakpointSpec, PopupDimension, PopupSpec};
use herdr::workspace::popup::{
    dimension_to_size, parse_color, EffectivePopupSpec, PopupSize, Rect, ResolvedPopupBreakpoint,
    ResolvedPopupSpec, POPUP_MIN_INNER_H, POPUP_MIN_INNER_W,
};
use ratatui::style::Color;

fn spec() -> ResolvedPopupSpec {
    ResolvedPopupSpec {
        width: PopupSize::Percent(50),
        height: PopupSize::Percent(50),
        border: true,
        border_style: PopupBorderStyle::Single,
        border_color: Color::Reset,
        padding: 0,
        bg: Color::Reset,
        title: None,
        breakpoints: Vec::new(),
    }
}

#[test]
fn centered_rect_is_centered_and_sized() {
    let s = spec();
    let area = Rect::new(0, 0, 100, 40);
    let (outer, inner, _) = s.rects(area).unwrap();
    assert_eq!(outer.width, 50);
    assert_eq!(outer.height, 20);
    // centered
    assert_eq!(outer.x, 25);
    assert_eq!(outer.y, 10);
    // inner accounts for the border
    assert_eq!(inner.width, 48);
    assert_eq!(inner.height, 18);
}

#[test]
fn padding_shrinks_inner() {
    let mut s = spec();
    s.padding = 2;
    s.width = PopupSize::Cells(40);
    s.height = PopupSize::Cells(20);
    let area = Rect::new(0, 0, 100, 40);
    let (outer, inner, _) = s.rects(area).unwrap();
    assert_eq!(outer.width, 40);
    // border (1) + padding (2) on each side = 3 inset
    assert_eq!(inner.width, 40 - 6);
    assert_eq!(inner.height, 20 - 6);
}

#[test]
fn clamps_to_min_when_requested_too_small() {
    let mut s = spec();
    s.width = PopupSize::Cells(1);
    s.height = PopupSize::Cells(1);
    let area = Rect::new(0, 0, 100, 40);
    let (outer, _, _) = s.rects(area).unwrap();
    // min inner + border chrome
    assert_eq!(outer.width, POPUP_MIN_INNER_W + 2);
    assert_eq!(outer.height, POPUP_MIN_INNER_H + 2);
}

#[test]
fn returns_none_when_area_smaller_than_min() {
    let s = spec();
    let area = Rect::new(0, 0, 3, 3);
    assert!(s.rects(area).is_none());
}

#[test]
fn borderless_has_no_frame_inset() {
    let mut s = spec();
    s.border = false;
    s.width = PopupSize::Cells(40);
    s.height = PopupSize::Cells(20);
    let area = Rect::new(0, 0, 100, 40);
    let (_, inner, _) = s.rects(area).unwrap();
    assert_eq!(inner.width, 40);
    assert_eq!(inner.height, 20);
}

#[test]
fn breakpoint_overrides_apply_when_area_matches() {
    let s = ResolvedPopupSpec::from_spec(
        &PopupSpec {
            width: Some(PopupDimension::Percent(60)),
            height: Some(PopupDimension::Percent(50)),
            border: Some(true),
            padding: Some(2),
            breakpoints: vec![PopupBreakpointSpec {
                max_cols: Some(80),
                width: Some(PopupDimension::Percent(100)),
                height: Some(PopupDimension::Percent(90)),
                border: Some(false),
                padding: Some(0),
                ..Default::default()
            }],
            ..Default::default()
        },
        Color::Yellow,
        Color::Black,
    );

    let (_, inner, effective) = s.rects(Rect::new(0, 0, 80, 40)).unwrap();
    assert_eq!(inner.width, 80);
    assert_eq!(inner.height, 36);
    assert!(!effective.border);
    assert_eq!(effective.padding, 0);

    let (_, inner, effective) = s.rects(Rect::new(0, 0, 100, 40)).unwrap();
    assert_eq!(inner.width, 54); // 60 columns minus border + padding chrome
    assert_eq!(inner.height, 14); // 20 rows minus border + padding chrome
    assert!(effective.border);
    assert_eq!(effective.padding, 2);
}

fn breakpoint() -> ResolvedPopupBreakpoint {
    ResolvedPopupBreakpoint {
        max_cols: None,
        max_rows: None,
        width: None,
        height: None,
        border: None,
        border_style: None,
        border_color: None,
        padding: None,
        bg: None,
        title: None,
    }
}

#[test]
fn later_matching_breakpoints_win_field_by_field() {
    let mut s = spec();
    s.title = Some("base".to_string());
    let mut first = breakpoint();
    first.max_cols = Some(120);
    first.width = Some(PopupSize::Cells(30));
    first.title = Some("first".to_string());
    first.bg = Some(Color::Blue);
    let mut second = breakpoint();
    second.max_rows = Some(50);
    second.width = Some(PopupSize::Cells(20));
    let mut unmatched = breakpoint();
    unmatched.max_cols = Some(10);
    unmatched.height = Some(PopupSize::Cells(3));
    s.breakpoints = vec![first, second, unmatched];

    let e = s.effective(Rect::new(0, 0, 100, 40));
    assert_eq!(e.width, PopupSize::Cells(20));
    assert_eq!(e.height, PopupSize::Percent(50));
    assert_eq!(e.title.as_deref(), Some("first"));
    assert_eq!(e.bg, Color::Blue);
    assert_eq!(e.border_color, Color::Reset);

    // No breakpoint applies to a large area: the base styling stays.
    let e = s.effective(Rect::new(0, 0, 200, 100));
    assert_eq!(e.width, PopupSize::Percent(50));
    assert_eq!(e.title.as_deref(), Some("base"));
    assert_eq!(e.bg, Color::Reset);
}

#[test]
fn breakpoint_needs_every_limit() {
    let mut b = breakpoint();
    b.max_cols = Some(80);
    b.max_rows = Some(20);
    assert!(b.matches(Rect::new(0, 0, 80, 20)));
    assert!(!b.matches(Rect::new(0, 0, 80, 21)));
    assert!(!b.matches(Rect::new(0, 0, 81, 20)));
    assert!(breakpoint().matches(Rect::new(0, 0, 500, 500)));
}

#[test]
fn outer_rect_is_offset_by_the_area_corner() {
    let s = spec();
    let (outer, inner, _) = s.rects(Rect::new(10, 5, 101, 41)).unwrap();
    // 50% of 101 is 50 (rounded down); (101 - 50) / 2 = 25; (41 - 20) / 2 = 10.
    assert_eq!(outer, Rect::new(35, 15, 50, 20));
    assert_eq!(inner, Rect::new(36, 16, 48, 18));
}

#[test]
fn size_resolution_caps_percent_and_keeps_cells() {
    assert_eq!(PopupSize::Percent(150).resolve(40), 40);
    assert_eq!(PopupSize::Percent(33).resolve(10), 3);
    assert_eq!(PopupSize::Cells(500).resolve(10), 500);
    assert_eq!(PopupSize::Percent(100).resolve(u16::MAX), u16::MAX);
}

#[test]
fn dimensions_map_to_sizes_with_a_default() {
    assert_eq!(dimension_to_size(None, 60), PopupSize::Percent(60));
    assert_eq!(dimension_to_size(Some(PopupDimension::Cells(7)), 60), PopupSize::Cells(7));
    assert_eq!(dimension_to_size(Some(PopupDimension::Percent(70)), 60), PopupSize::Percent(70));
}

#[test]
fn from_spec_fills_defaults_and_parses_colors() {
    let s = ResolvedPopupSpec::from_spec(&PopupSpec::default(), Color::Yellow, Color::Black);
    assert_eq!(s.width, PopupSize::Percent(60));
    assert_eq!(s.height, PopupSize::Percent(60));
    assert!(s.border);
    assert_eq!(s.border_style, PopupBorderStyle::Single);
    assert_eq!(s.border_color, Color::Yellow);
    assert_eq!(s.bg, Color::Black);
    assert_eq!(s.padding, 0);

    let s = ResolvedPopupSpec::from_spec(
        &PopupSpec {
            border_color: Some("#ff0000".to_string()),
            bg: Some("not a color".to_string()),
            ..Default::default()
        },
        Color::Yellow,
        Color::Black,
    );
    assert_eq!(s.border_color, Color::Rgb(255, 0, 0));
    assert_eq!(s.bg, Color::Reset);
    assert_eq!(parse_color("light blue"), Color::LightBlue);
    assert_eq!(parse_color("12"), Color::Indexed(12));
    assert_eq!(parse_color("no such color"), Color::Reset);

    // A set name resolves the same whatever the defaults are.
    let named = PopupSpec {
        border_color: Some("red".to_string()),
        bg: Some("bogus".to_string()),
        breakpoints: vec![PopupBreakpointSpec {
            border_color: Some("bogus".to_string()),
            bg: Some("blue".to_string()),
            ..Default::default()
        }],
        ..Default::default()
    };
    let a = ResolvedPopupSpec::from_spec(&named, Color::Yellow, Color::Black);
    let b = ResolvedPopupSpec::from_spec(&named, Color::Green, Color::White);
    assert_eq!(a, b);
    assert_eq!(a.border_color, Color::Red);
    assert_eq!(a.bg, Color::Reset);
    assert_eq!(a.breakpoints[0].border_color, Some(Color::Reset));
    assert_eq!(a.breakpoints[0].bg, Some(Color::Blue));
}

#[test]
fn rect_new_keeps_within_u16_range() {
    let r = Rect::new(65530, 10, 100, 5);
    assert_eq!(r.width, 5);
    assert_eq!(r.height, 5);
}

#[test]
fn inner_rect_saturates_when_outer_is_too_small() {
    let e = EffectivePopupSpec {
        width: PopupSize::Cells(4),
        height: PopupSize::Cells(4),
        border: true,
        border_style: PopupBorderStyle::Double,
        border_color: Color::Reset,
        padding: 3,
        bg: Color::Reset,
        title: None,
    };
    let inner = e.inner_rect(Rect::new(0, 0, 5, 5));
    assert_eq!(inner, Rect { x: 4, y: 4, width: 0, height: 0 });
    assert_eq!(e.outer_rect(Rect::new(0, 0, 11, 100)), None);
    assert_eq!(e.outer_rect(Rect::new(0, 0, 12, 100)), Some(Rect::new(0, 45, 12, 10)));
}
