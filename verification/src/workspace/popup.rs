//! Ephemeral floating popup pane.
//!
//! A popup is a centered, bordered terminal rendered on top of the tiled layout
//! but tracked outside the layout tree. This module resolves its styling from
//! the wire `PopupSpec`, applies the area-dependent breakpoints and computes the
//! outer (framed) and inner (content) rectangles for a given area.

use ratatui::style::Color;

use vstd::prelude::*;

use crate::api::schema::{PopupBorderStyle, PopupBreakpointSpec, PopupDimension, PopupSpec};

verus! {

#[verifier::external_type_specification]
#[verifier::external_body]
pub struct ExColor(Color);

/// `<ratatui::style::Color as Clone>::clone`. `Color` derives `Clone` and
/// `Copy`; claimed: the clone equals the value cloned.
pub assume_specification[ <Color as Clone>::clone ](c: &Color) -> (r: Color)
    ensures
        r == *c,
;

/// Minimum interior (content) size a popup is clamped to, in cells.
pub const POPUP_MIN_INNER_W: u16 = 4;
pub const POPUP_MIN_INNER_H: u16 = 2;

pub const POPUP_DEFAULT_WIDTH_PCT: u16 = 60;
pub const POPUP_DEFAULT_HEIGHT_PCT: u16 = 60;

/// A rectangle of terminal cells: top-left corner and size.
#[derive(Debug, Clone, Copy, PartialEq, Eq, Structural)]
pub struct Rect {
    pub x: u16,
    pub y: u16,
    pub width: u16,
    pub height: u16,
}

/// The rectangle that `ratatui::layout::Rect::new(x, y, width, height)` builds:
/// width and height are cut so that the rectangle ends at `u16::MAX` at most.
pub open spec fn clamped_rect(x: u16, y: u16, width: u16, height: u16) -> Rect {
    Rect {
        x,
        y,
        width: if width > u16::MAX - x { (u16::MAX - x) as u16 } else { width },
        height: if height > u16::MAX - y { (u16::MAX - y) as u16 } else { height },
    }
}

/// `ratatui::layout::Rect::new`. Claimed, as its source reads: the corner is kept
/// and the width (height) is cut to `u16::MAX - x` (`u16::MAX - y`) when larger.
#[verifier::external_body]
fn ratatui_rect_new(x: u16, y: u16, width: u16, height: u16) -> (r: Rect)
    ensures
        r == clamped_rect(x, y, width, height),
{
    let r = ratatui::layout::Rect::new(x, y, width, height);
    Rect { x: r.x, y: r.y, width: r.width, height: r.height }
}

impl Rect {
    /// A rectangle at `(x, y)`; the size is cut so that it ends within the
    /// `u16` coordinate range.
    pub fn new(x: u16, y: u16, width: u16, height: u16) -> (r: Rect)
        ensures
            r == clamped_rect(x, y, width, height),
    {
        ratatui_rect_new(x, y, width, height)
    }

    /// The rectangle lies within the `u16` coordinate range.
    pub open spec fn is_bounded(self) -> bool {
        self.x + self.width <= u16::MAX && self.y + self.height <= u16::MAX
    }

    /// `self` lies within `outer`.
    pub open spec fn lies_within(self, outer: Rect) -> bool {
        &&& outer.x <= self.x
        &&& outer.y <= self.y
        &&& self.x + self.width <= outer.x + outer.width
        &&& self.y + self.height <= outer.y + outer.height
    }
}

/// What a parsed color name gives, if it names a color
/// (`<ratatui::style::Color as FromStr>::from_str`).
pub uninterp spec fn color_named(name: Seq<char>) -> Option<Color>;

/// `<ratatui::style::Color as FromStr>::from_str`. Claimed: the result depends
/// on the text alone (it is `color_named` of it); `None` stands for the parse
/// error.
#[verifier::external_body]
fn ratatui_color_from_str(name: &str) -> (r: Option<Color>)
    ensures
        r == color_named(name@),
{
    match <Color as std::str::FromStr>::from_str(name) {
        Ok(c) => Some(c),
        Err(_) => None,
    }
}

/// `<ratatui::style::Color as Default>::default`. `Color` derives `Default`
/// with `Reset` as the default variant, and `from_str("reset")` gives
/// `Reset`; claimed: the default is the color that the name `reset` gives.
pub assume_specification[ <Color as Default>::default ]() -> (r: Color)
    ensures
        color_named("reset"@) == Some(r),
;

/// The terminal's own color (`Color::Reset`): the color named `reset`.
pub open spec fn reset_color() -> Color {
    color_named("reset"@)->0
}

/// The color that a configured name resolves to: the named color, or the
/// terminal's own color when the name is not a color. It depends on the
/// name alone.
pub open spec fn resolved_color(name: Seq<char>) -> Color {
    match color_named(name) {
        Some(c) => c,
        None => reset_color(),
    }
}

/// Resolves a configured color name; a name that is no color gives the
/// terminal's own color (`Color::Reset`).
pub fn parse_color(name: &str) -> (r: Color)
    ensures
        r == resolved_color(name@),
{
    match ratatui_color_from_str(name) {
        Some(c) => c,
        None => Color::default(),
    }
}

/// The color an optional configured name resolves to: `default` when unset;
/// a set name resolves on its own, whatever `default` is.
pub open spec fn optional_color(name: Option<String>, default: Color) -> Color {
    match name {
        Some(s) => resolved_color(s@),
        None => default,
    }
}

fn resolve_optional_color(name: &Option<String>, default: Color) -> (r: Color)
    ensures
        r == optional_color(*name, default),
{
    match name {
        Some(s) => parse_color(s.as_str()),
        None => default,
    }
}

#[derive(Debug, Clone, Copy, PartialEq, Eq, Structural)]
pub enum PopupSize {
    Percent(u16),
    Cells(u16),
}

/// Cells that a size takes on an axis of `axis` cells: a percentage (capped at
/// 100) of the axis, rounded down, or the absolute count.
pub open spec fn resolved_size(size: PopupSize, axis: u16) -> int {
    match size {
        PopupSize::Percent(pct) => (axis as int) * (if pct <= 100 { pct as int } else { 100 }) / 100,
        PopupSize::Cells(cells) => cells as int,
    }
}

impl PopupSize {
    pub fn resolve(self, axis: u16) -> (r: u16)
        ensures
            r == resolved_size(self, axis),
    {
        match self {
            PopupSize::Percent(pct) => {
                let p: u32 = if pct <= 100 { pct as u32 } else { 100 };
                let a: u32 = axis as u32;
                assert(a * p <= 65535 * 100) by (nonlinear_arith)
                    requires a <= 65535, p <= 100;
                assert(a * p / 100 <= a) by (nonlinear_arith)
                    requires p <= 100;
                ((a * p) / 100) as u16
            },
            PopupSize::Cells(cells) => cells,
        }
    }
}

/// The size a wire dimension asks for; `default_pct` percent when unset.
pub open spec fn size_of_dimension(dim: Option<PopupDimension>, default_pct: u16) -> PopupSize {
    match dim {
        Some(PopupDimension::Percent(pct)) => PopupSize::Percent(pct),
        Some(PopupDimension::Cells(cells)) => PopupSize::Cells(cells),
        None => PopupSize::Percent(default_pct),
    }
}

pub fn dimension_to_size(dim: Option<PopupDimension>, default_pct: u16) -> (r: PopupSize)
    ensures
        r == size_of_dimension(dim, default_pct),
{
    match dim {
        Some(PopupDimension::Percent(pct)) => PopupSize::Percent(pct),
        Some(PopupDimension::Cells(cells)) => PopupSize::Cells(cells),
        None => PopupSize::Percent(default_pct),
    }
}


/// A live popup pane attached to a tab, outside the layout tree. `P` is the
/// pane id type and `S` the viewport state of the pane.
pub struct Popup<P, S> {
    /// Unique pane id (globally allocated, never registered in the layout tree).
    pub pane_id: P,
    /// Viewport state of the popup's terminal.
    pub state: S,
    /// Resolved styling/sizing, computed once at open time.
    pub spec: ResolvedPopupSpec,
}

impl<P, S> Popup<P, S> {
    pub fn new(pane_id: P, state: S, spec: ResolvedPopupSpec) -> (r: Self)
        ensures
            r.pane_id == pane_id,
            r.state == state,
            r.spec == spec,
    {
        Popup { pane_id, state, spec }
    }
}

/// Concrete popup styling resolved from a `PopupSpec` at open time.
#[derive(Debug, Clone, PartialEq, Eq)]
pub struct ResolvedPopupSpec {
    /// Width as a percent of the area width (1..=100) or absolute cells.
    pub width: PopupSize,
    pub height: PopupSize,
    pub border: bool,
    pub border_style: PopupBorderStyle,
    pub border_color: Color,
    pub padding: u16,
    pub bg: Color,
    pub title: Option<String>,
    pub breakpoints: Vec<ResolvedPopupBreakpoint>,
}

#[derive(Debug, Clone, PartialEq, Eq)]
pub struct ResolvedPopupBreakpoint {
    pub max_cols: Option<u16>,
    pub max_rows: Option<u16>,
    pub width: Option<PopupSize>,
    pub height: Option<PopupSize>,
    pub border: Option<bool>,
    pub border_style: Option<PopupBorderStyle>,
    pub border_color: Option<Color>,
    pub padding: Option<u16>,
    pub bg: Option<Color>,
    pub title: Option<String>,
}

/// The styling that applies to one area, breakpoints applied.
#[derive(Debug, Clone, PartialEq, Eq)]
pub struct EffectivePopupSpec {
    pub width: PopupSize,
    pub height: PopupSize,
    pub border: bool,
    pub border_style: PopupBorderStyle,
    pub border_color: Color,
    pub padding: u16,
    pub bg: Color,
    pub title: Option<String>,
}

/// A breakpoint applies to `area` when every limit it sets holds.
pub open spec fn breakpoint_matches(bp: ResolvedPopupBreakpoint, area: Rect) -> bool {
    &&& (bp.max_cols matches Some(m) ==> area.width <= m)
    &&& (bp.max_rows matches Some(m) ==> area.height <= m)
}

/// The value that the last breakpoint in `bps` which applies to `area` and sets
/// the field read by `pick` gives the field; `base` when no such breakpoint.
pub open spec fn last_override<T>(
    base: T,
    bps: Seq<ResolvedPopupBreakpoint>,
    area: Rect,
    pick: spec_fn(ResolvedPopupBreakpoint) -> Option<T>,
) -> T
    decreases bps.len(),
{
    if bps.len() == 0 {
        base
    } else if breakpoint_matches(bps.last(), area) && pick(bps.last()) is Some {
        pick(bps.last())->0
    } else {
        last_override(base, bps.drop_last(), area, pick)
    }
}

pub open spec fn pick_width() -> spec_fn(ResolvedPopupBreakpoint) -> Option<PopupSize> {
    |bp: ResolvedPopupBreakpoint| bp.width
}

pub open spec fn pick_height() -> spec_fn(ResolvedPopupBreakpoint) -> Option<PopupSize> {
    |bp: ResolvedPopupBreakpoint| bp.height
}

pub open spec fn pick_border() -> spec_fn(ResolvedPopupBreakpoint) -> Option<bool> {
    |bp: ResolvedPopupBreakpoint| bp.border
}

pub open spec fn pick_border_style() -> spec_fn(ResolvedPopupBreakpoint) -> Option<PopupBorderStyle> {
    |bp: ResolvedPopupBreakpoint| bp.border_style
}

pub open spec fn pick_border_color() -> spec_fn(ResolvedPopupBreakpoint) -> Option<Color> {
    |bp: ResolvedPopupBreakpoint| bp.border_color
}

pub open spec fn pick_padding() -> spec_fn(ResolvedPopupBreakpoint) -> Option<u16> {
    |bp: ResolvedPopupBreakpoint| bp.padding
}

pub open spec fn pick_bg() -> spec_fn(ResolvedPopupBreakpoint) -> Option<Color> {
    |bp: ResolvedPopupBreakpoint| bp.bg
}

/// A breakpoint's title, as the effective (optional) title it sets.
pub open spec fn pick_title() -> spec_fn(ResolvedPopupBreakpoint) -> Option<Option<String>> {
    |bp: ResolvedPopupBreakpoint|
        if bp.title is Some {
            Some(bp.title)
        } else {
            None
        }
}

/// The effective styling for `area`: each field comes from the last
/// breakpoint that applies to `area` and sets it, or from `spec` itself.
pub open spec fn effective_for(spec: ResolvedPopupSpec, area: Rect) -> EffectivePopupSpec {
    let bps = spec.breakpoints@;
    EffectivePopupSpec {
        width: last_override(spec.width, bps, area, pick_width()),
        height: last_override(spec.height, bps, area, pick_height()),
        border: last_override(spec.border, bps, area, pick_border()),
        border_style: last_override(spec.border_style, bps, area, pick_border_style()),
        border_color: last_override(spec.border_color, bps, area, pick_border_color()),
        padding: last_override(spec.padding, bps, area, pick_padding()),
        bg: last_override(spec.bg, bps, area, pick_bg()),
        title: last_override(spec.title, bps, area, pick_title()),
    }
}

fn clone_title(t: &Option<String>) -> (r: Option<String>)
    ensures
        r == *t,
{
    match t {
        Some(s) => Some(s.clone()),
        None => None,
    }
}

impl ResolvedPopupBreakpoint {
    pub fn matches(&self, area: Rect) -> (r: bool)
        ensures
            r == breakpoint_matches(*self, area),
    {
        let cols_ok = match self.max_cols {
            Some(max) => area.width <= max,
            None => true,
        };
        let rows_ok = match self.max_rows {
            Some(max) => area.height <= max,
            None => true,
        };
        cols_ok && rows_ok
    }
}

impl ResolvedPopupSpec {
    /// The styling that applies to `area`: later matching breakpoints override
    /// earlier ones (and the base spec) field by field.
    pub fn effective(&self, area: Rect) -> (r: EffectivePopupSpec)
        ensures
            r == effective_for(*self, area),
    {
        let mut effective = EffectivePopupSpec {
            width: self.width,
            height: self.height,
            border: self.border,
            border_style: self.border_style,
            border_color: self.border_color,
            padding: self.padding,
            bg: self.bg,
            title: clone_title(&self.title),
        };
        let n = self.breakpoints.len();
        let ghost bps = self.breakpoints@;
        for i in 0..n
            invariant
                n == bps.len(),
                bps == self.breakpoints@,
                effective.width == last_override(self.width, bps.take(i as int), area, pick_width()),
                effective.height == last_override(self.height, bps.take(i as int), area, pick_height()),
                effective.border == last_override(self.border, bps.take(i as int), area, pick_border()),
                effective.border_style == last_override(
                    self.border_style,
                    bps.take(i as int),
                    area,
                    pick_border_style(),
                ),
                effective.border_color == last_override(
                    self.border_color,
                    bps.take(i as int),
                    area,
                    pick_border_color(),
                ),
                effective.padding == last_override(self.padding, bps.take(i as int), area, pick_padding()),
                effective.bg == last_override(self.bg, bps.take(i as int), area, pick_bg()),
                effective.title == last_override(self.title, bps.take(i as int), area, pick_title()),
        {
            let breakpoint = &self.breakpoints[i];
            let ghost t = bps.take(i + 1);
            assert(t.drop_last() == bps.take(i as int));
            assert(t.last() == *breakpoint);
            if breakpoint.matches(area) {
                if let Some(width) = breakpoint.width {
                    effective.width = width;
                }
                if let Some(height) = breakpoint.height {
                    effective.height = height;
                }
                if let Some(border) = breakpoint.border {
                    effective.border = border;
                }
                if let Some(border_style) = breakpoint.border_style {
                    effective.border_style = border_style;
                }
                if let Some(border_color) = breakpoint.border_color {
                    effective.border_color = border_color;
                }
                if let Some(padding) = breakpoint.padding {
                    effective.padding = padding;
                }
                if let Some(bg) = breakpoint.bg {
                    effective.bg = bg;
                }
                if let Some(title) = &breakpoint.title {
                    effective.title = Some(title.clone());
                }
            }
        }
        assert(bps.take(n as int) == bps);
        effective
    }
}


/// `x.saturating_mul(2)` for a `u16`.
pub open spec fn saturating_double(x: u16) -> int {
    if 2 * x > u16::MAX { u16::MAX as int } else { 2 * x }
}

/// `a.saturating_add(b)` for `u16` values.
pub open spec fn saturating_sum(a: int, b: int) -> int {
    if a + b > u16::MAX { u16::MAX as int } else { a + b }
}

/// `v.clamp(lo, hi)` for `lo <= hi`.
pub open spec fn clamp(v: int, lo: int, hi: int) -> int {
    if v < lo { lo } else if v > hi { hi } else { v }
}

impl EffectivePopupSpec {
    /// Cells taken on each axis by the frame (two when bordered) and the padding
    /// on both sides.
    pub open spec fn chrome(self) -> int {
        (if self.border { 2int } else { 0 }) + saturating_double(self.padding)
    }

    /// Smallest outer width: the minimum interior width plus the chrome.
    pub open spec fn min_outer_width(self) -> int {
        saturating_sum(POPUP_MIN_INNER_W as int, self.chrome())
    }

    /// Smallest outer height: the minimum interior height plus the chrome.
    pub open spec fn min_outer_height(self) -> int {
        saturating_sum(POPUP_MIN_INNER_H as int, self.chrome())
    }

    /// The area is large enough for the smallest popup.
    pub open spec fn fits_in(self, area: Rect) -> bool {
        area.width >= self.min_outer_width() && area.height >= self.min_outer_height()
    }

    /// Outer width in `area`: the asked-for width, clamped between the
    /// smallest width and the area's width.
    pub open spec fn outer_width(self, area: Rect) -> int {
        clamp(resolved_size(self.width, area.width), self.min_outer_width(), area.width as int)
    }

    pub open spec fn outer_height(self, area: Rect) -> int {
        clamp(resolved_size(self.height, area.height), self.min_outer_height(), area.height as int)
    }

    /// Left edge of the outer rectangle, centered in `area`.
    pub open spec fn outer_x(self, area: Rect) -> int {
        area.x + (area.width - self.outer_width(area)) / 2
    }

    pub open spec fn outer_y(self, area: Rect) -> int {
        area.y + (area.height - self.outer_height(area)) / 2
    }

    /// The outer rectangle in `area`: centered, clamped to the area and to the
    /// smallest size; none when the area is too small for the smallest popup.
    pub open spec fn outer_rect_in(self, area: Rect) -> Option<Rect> {
        if self.fits_in(area) {
            Some(
                clamped_rect(
                    self.outer_x(area) as u16,
                    self.outer_y(area) as u16,
                    self.outer_width(area) as u16,
                    self.outer_height(area) as u16,
                ),
            )
        } else {
            None
        }
    }

    /// The computation of the outer rectangle stays within `u16`: the chrome
    /// fits, and so does the centered corner.
    pub open spec fn outer_rect_computable(self, area: Rect) -> bool {
        &&& self.chrome() <= u16::MAX
        &&& self.fits_in(area) ==> self.outer_x(area) <= u16::MAX && self.outer_y(area) <= u16::MAX
    }

    /// Cells between the outer edge and the content on each side: the frame
    /// (one when bordered) plus the padding.
    pub open spec fn inset(self) -> int {
        (if self.border { 1int } else { 0 }) + self.padding
    }

    /// The content rectangle inside `outer`: inset on each side, the size
    /// shrunk by twice the inset (saturating at zero).
    pub open spec fn inner_rect_of(self, outer: Rect) -> Rect {
        let inset = self.inset();
        let twice = if 2 * inset > u16::MAX { u16::MAX as int } else { 2 * inset };
        Rect {
            x: saturating_sum(outer.x as int, inset) as u16,
            y: saturating_sum(outer.y as int, inset) as u16,
            width: (if outer.width >= twice { outer.width - twice } else { 0 }) as u16,
            height: (if outer.height >= twice { outer.height - twice } else { 0 }) as u16,
        }
    }

    pub fn outer_rect(&self, area: Rect) -> (r: Option<Rect>)
        requires
            self.outer_rect_computable(area),
        ensures
            r == self.outer_rect_in(area),
    {
        let frame: u16 = if self.border { 2 } else { 0 };
        let pad: u16 = if self.padding > 32767 { u16::MAX } else { self.padding * 2 };
        let chrome_w: u16 = frame + pad;
        let chrome_h: u16 = frame + pad;

        let want_w = self.width.resolve(area.width);
        let want_h = self.height.resolve(area.height);

        let max_w = area.width;
        let max_h = area.height;
        let min_w = POPUP_MIN_INNER_W.saturating_add(chrome_w);
        let min_h = POPUP_MIN_INNER_H.saturating_add(chrome_h);

        if max_w < min_w || max_h < min_h {
            return None;
        }
        let outer_w: u16 = if want_w < min_w { min_w } else if want_w > max_w { max_w } else { want_w };
        let outer_h: u16 = if want_h < min_h { min_h } else if want_h > max_h { max_h } else { want_h };

        let x = area.x + (area.width - outer_w) / 2;
        let y = area.y + (area.height - outer_h) / 2;
        Some(Rect::new(x, y, outer_w, outer_h))
    }

    /// Whether `outer_rect` can be computed for `area` within `u16`.
    pub fn outer_rect_is_computable(&self, area: Rect) -> (r: bool)
        ensures
            r == self.outer_rect_computable(area),
    {
        let frame: u32 = if self.border { 2 } else { 0 };
        let pad: u32 = if self.padding > 32767 { 65535 } else { (self.padding as u32) * 2 };
        let chrome: u32 = frame + pad;
        if chrome > 65535 {
            return false;
        }
        let min_w: u32 = if 4 + chrome > 65535 { 65535 } else { 4 + chrome };
        let min_h: u32 = if 2 + chrome > 65535 { 65535 } else { 2 + chrome };
        let max_w = area.width as u32;
        let max_h = area.height as u32;
        if max_w < min_w || max_h < min_h {
            return true;
        }
        let want_w = self.width.resolve(area.width) as u32;
        let want_h = self.height.resolve(area.height) as u32;
        let outer_w: u32 = if want_w < min_w { min_w } else if want_w > max_w { max_w } else { want_w };
        let outer_h: u32 = if want_h < min_h { min_h } else if want_h > max_h { max_h } else { want_h };
        let x: u32 = area.x as u32 + (max_w - outer_w) / 2;
        let y: u32 = area.y as u32 + (max_h - outer_h) / 2;
        x <= 65535 && y <= 65535
    }

    pub fn inner_rect(&self, outer: Rect) -> (r: Rect)
        requires
            self.inset() <= u16::MAX,
        ensures
            r == self.inner_rect_of(outer),
    {
        let frame: u16 = if self.border { 1 } else { 0 };
        let inset: u16 = frame + self.padding;
        let twice: u16 = if inset > 32767 { u16::MAX } else { inset * 2 };
        Rect {
            x: outer.x.saturating_add(inset),
            y: outer.y.saturating_add(inset),
            width: outer.width.saturating_sub(twice),
            height: outer.height.saturating_sub(twice),
        }
    }
}

impl ResolvedPopupSpec {
    /// Whether `rects` can be computed for `area` within `u16`.
    pub fn rects_are_computable(&self, area: Rect) -> (r: bool)
        ensures
            r == effective_for(*self, area).outer_rect_computable(area),
    {
        let effective = self.effective(area);
        effective.outer_rect_is_computable(area)
    }

    /// The outer and inner rectangles of the popup in `area`, with the styling
    /// that applies there; none when the area is too small.
    pub fn rects(&self, area: Rect) -> (r: Option<(Rect, Rect, EffectivePopupSpec)>)
        requires
            effective_for(*self, area).outer_rect_computable(area),
        ensures
            r is Some <==> effective_for(*self, area).fits_in(area),
            r matches Some((outer, inner, eff)) ==> {
                &&& eff == effective_for(*self, area)
                &&& Some(outer) == eff.outer_rect_in(area)
                &&& inner == eff.inner_rect_of(outer)
            },
    {
        let effective = self.effective(area);
        let outer = match effective.outer_rect(area) {
            Some(o) => o,
            None => return None,
        };
        let inner = effective.inner_rect(outer);
        Some((outer, inner, effective))
    }

    /// Resolves a wire `PopupSpec` into concrete render values: unset sizes
    /// default to 60% of the area, the border to on (single style), the padding
    /// to 0, unset colors to the given defaults. A set color name resolves on
    /// its own (`parse_color`), whatever the defaults are.
    pub fn from_spec(spec: &PopupSpec, default_border_color: Color, default_bg: Color) -> (r: Self)
        ensures
            r.width == size_of_dimension(spec.width, POPUP_DEFAULT_WIDTH_PCT),
            r.height == size_of_dimension(spec.height, POPUP_DEFAULT_HEIGHT_PCT),
            r.border == (match spec.border { Some(b) => b, None => true }),
            r.border_style == (match spec.border_style { Some(s) => s, None => PopupBorderStyle::Single }),
            r.border_color == optional_color(spec.border_color, default_border_color),
            r.padding == (match spec.padding { Some(p) => p, None => 0 }),
            r.bg == optional_color(spec.bg, default_bg),
            r.title == spec.title,
            r.breakpoints@.len() == spec.breakpoints@.len(),
            forall|i: int|
                0 <= i < spec.breakpoints@.len() ==> #[trigger] r.breakpoints@[i] == resolved_breakpoint(spec.breakpoints@[i]),
    {
        let mut breakpoints: Vec<ResolvedPopupBreakpoint> = Vec::new();
        let n = spec.breakpoints.len();
        for i in 0..n
            invariant
                n == spec.breakpoints@.len(),
                breakpoints@.len() == i,
                forall|j: int|
                    0 <= j < i ==> #[trigger] breakpoints@[j] == resolved_breakpoint(spec.breakpoints@[j]),
        {
            breakpoints.push(resolve_breakpoint(&spec.breakpoints[i]));
        }
        ResolvedPopupSpec {
            width: dimension_to_size(spec.width, POPUP_DEFAULT_WIDTH_PCT),
            height: dimension_to_size(spec.height, POPUP_DEFAULT_HEIGHT_PCT),
            border: match spec.border {
                Some(b) => b,
                None => true,
            },
            border_style: match spec.border_style {
                Some(s) => s,
                None => PopupBorderStyle::Single,
            },
            border_color: resolve_optional_color(&spec.border_color, default_border_color),
            padding: match spec.padding {
                Some(p) => p,
                None => 0,
            },
            bg: resolve_optional_color(&spec.bg, default_bg),
            title: clone_title(&spec.title),
            breakpoints,
        }
    }
}

/// A wire breakpoint resolved: limits and sizes kept, each set color name
/// resolved on its own (`parse_color`).
pub open spec fn resolved_breakpoint(bp: PopupBreakpointSpec) -> ResolvedPopupBreakpoint {
    ResolvedPopupBreakpoint {
        max_cols: bp.max_cols,
        max_rows: bp.max_rows,
        width: match bp.width {
            Some(d) => Some(size_of_dimension(Some(d), 100)),
            None => None,
        },
        height: match bp.height {
            Some(d) => Some(size_of_dimension(Some(d), 100)),
            None => None,
        },
        border: bp.border,
        border_style: bp.border_style,
        border_color: match bp.border_color {
            Some(s) => Some(resolved_color(s@)),
            None => None,
        },
        padding: bp.padding,
        bg: match bp.bg {
            Some(s) => Some(resolved_color(s@)),
            None => None,
        },
        title: bp.title,
    }
}

pub fn resolve_breakpoint(breakpoint: &PopupBreakpointSpec) -> (r: ResolvedPopupBreakpoint)
    ensures
        r == resolved_breakpoint(*breakpoint),
{
    ResolvedPopupBreakpoint {
        max_cols: breakpoint.max_cols,
        max_rows: breakpoint.max_rows,
        width: match breakpoint.width {
            Some(dim) => Some(dimension_to_size(Some(dim), 100)),
            None => None,
        },
        height: match breakpoint.height {
            Some(dim) => Some(dimension_to_size(Some(dim), 100)),
            None => None,
        },
        border: breakpoint.border,
        border_style: breakpoint.border_style,
        border_color: match &breakpoint.border_color {
            Some(s) => Some(parse_color(s.as_str())),
            None => None,
        },
        padding: breakpoint.padding,
        bg: match &breakpoint.bg {
            Some(s) => Some(parse_color(s.as_str())),
            None => None,
        },
        title: clone_title(&breakpoint.title),
    }
}


/// In an area that lies within the `u16` range, the outer rectangle is
/// always computable; when the area is large enough it lies within the area,
/// is centered in it (to the cell, rounding toward the top-left), is at least
/// the smallest popup size and at most the area; otherwise there is none.
pub proof fn lemma_outer_rect_centered_within_area(spec: EffectivePopupSpec, area: Rect)
    requires
        spec.chrome() <= u16::MAX,
        area.is_bounded(),
    ensures
        spec.outer_rect_computable(area),
        !spec.fits_in(area) ==> spec.outer_rect_in(area) is None,
        spec.fits_in(area) ==> {
            let outer = spec.outer_rect_in(area)->0;
            &&& outer.lies_within(area)
            &&& outer.width >= spec.min_outer_width()
            &&& outer.height >= spec.min_outer_height()
            &&& outer.x - area.x == (area.width - outer.width) / 2
            &&& outer.y - area.y == (area.height - outer.height) / 2
            &&& outer.width == spec.outer_width(area)
            &&& outer.height == spec.outer_height(area)
        },
{
}

/// The content rectangle of a popup keeps the minimum interior size: when the
/// area is large enough and the chrome leaves room for the minimum interior in
/// `u16`, the inner rectangle lies within the outer one, is inset by the frame
/// and padding on every side, and is at least `POPUP_MIN_INNER_W` by
/// `POPUP_MIN_INNER_H` cells.
pub proof fn lemma_inner_rect_keeps_minimum_interior(spec: EffectivePopupSpec, area: Rect)
    requires
        area.is_bounded(),
        spec.fits_in(area),
        spec.chrome() + POPUP_MIN_INNER_W <= u16::MAX,
    ensures
        ({
            let outer = spec.outer_rect_in(area)->0;
            let inner = spec.inner_rect_of(outer);
            &&& inner.lies_within(outer)
            &&& inner.x == outer.x + spec.inset()
            &&& inner.y == outer.y + spec.inset()
            &&& inner.width == outer.width - 2 * spec.inset()
            &&& inner.height == outer.height - 2 * spec.inset()
            &&& inner.width >= POPUP_MIN_INNER_W
            &&& inner.height >= POPUP_MIN_INNER_H
        }),
{
    lemma_outer_rect_centered_within_area(spec, area);
    assert(spec.chrome() == 2 * spec.inset());
}

proof fn lemma_last_override_without_match<T>(
    base: T,
    bps: Seq<ResolvedPopupBreakpoint>,
    area: Rect,
    pick: spec_fn(ResolvedPopupBreakpoint) -> Option<T>,
)
    requires
        forall|i: int| 0 <= i < bps.len() ==> !breakpoint_matches(#[trigger] bps[i], area),
    ensures
        last_override(base, bps, area, pick) == base,
    decreases bps.len(),
{
    if bps.len() > 0 {
        let t = bps.drop_last();
        assert forall|i: int| 0 <= i < t.len() implies !breakpoint_matches(#[trigger] t[i], area) by {
            assert(t[i] == bps[i]);
        }
        assert(!breakpoint_matches(bps[bps.len() - 1], area));
        lemma_last_override_without_match(base, t, area, pick);
    }
}

/// Breakpoints that do not apply to an area change nothing: when none of them
/// matches, the effective styling is the base styling.
pub proof fn lemma_effective_without_matching_breakpoint_is_base(spec: ResolvedPopupSpec, area: Rect)
    requires
        forall|i: int|
            0 <= i < spec.breakpoints@.len() ==> !breakpoint_matches(#[trigger] spec.breakpoints@[i], area),
    ensures
        ({
            let e = effective_for(spec, area);
            &&& e.width == spec.width
            &&& e.height == spec.height
            &&& e.border == spec.border
            &&& e.border_style == spec.border_style
            &&& e.border_color == spec.border_color
            &&& e.padding == spec.padding
            &&& e.bg == spec.bg
            &&& e.title == spec.title
        }),
{
    let bps = spec.breakpoints@;
    lemma_last_override_without_match(spec.width, bps, area, pick_width());
    lemma_last_override_without_match(spec.height, bps, area, pick_height());
    lemma_last_override_without_match(spec.border, bps, area, pick_border());
    lemma_last_override_without_match(spec.border_style, bps, area, pick_border_style());
    lemma_last_override_without_match(spec.border_color, bps, area, pick_border_color());
    lemma_last_override_without_match(spec.padding, bps, area, pick_padding());
    lemma_last_override_without_match(spec.bg, bps, area, pick_bg());
    lemma_last_override_without_match(spec.title, bps, area, pick_title());
}


/// A set color name resolves the same whatever the palette default is; the
/// default only fills in an unset name.
pub proof fn lemma_set_color_name_ignores_default(name: String, first: Color, second: Color)
    ensures
        optional_color(Some(name), first) == optional_color(Some(name), second),
        optional_color(Some(name), first) == resolved_color(name@),
        optional_color(None, first) == first,
{
}


/// A breakpoint applies to an area exactly when every limit it sets holds:
/// `max_cols` bounds the width and `max_rows` the height; an unset limit
/// always holds.
pub proof fn lemma_breakpoint_applies_when_every_limit_holds(bp: ResolvedPopupBreakpoint, area: Rect)
    ensures
        breakpoint_matches(bp, area) <==> (
            (bp.max_cols is None || area.width <= bp.max_cols->0)
            && (bp.max_rows is None || area.height <= bp.max_rows->0)
        ),
{
}

/// `k` is the last breakpoint that applies to `area` and sets the field that
/// `sets` tells about.
pub open spec fn is_last_setter(
    bps: Seq<ResolvedPopupBreakpoint>,
    area: Rect,
    k: int,
    sets: spec_fn(ResolvedPopupBreakpoint) -> bool,
) -> bool {
    &&& 0 <= k < bps.len()
    &&& breakpoint_matches(bps[k], area)
    &&& sets(bps[k])
    &&& forall|j: int| k < j < bps.len() && breakpoint_matches(#[trigger] bps[j], area) ==> !sets(bps[j])
}

/// No breakpoint that applies to `area` sets the field that `sets` tells about.
pub open spec fn no_setter(
    bps: Seq<ResolvedPopupBreakpoint>,
    area: Rect,
    sets: spec_fn(ResolvedPopupBreakpoint) -> bool,
) -> bool {
    forall|j: int| 0 <= j < bps.len() && breakpoint_matches(#[trigger] bps[j], area) ==> !sets(bps[j])
}

proof fn lemma_last_override_is_last_setter<T>(
    base: T,
    bps: Seq<ResolvedPopupBreakpoint>,
    area: Rect,
    pick: spec_fn(ResolvedPopupBreakpoint) -> Option<T>,
)
    ensures
        forall|k: int|
            is_last_setter(bps, area, k, |bp: ResolvedPopupBreakpoint| pick(bp) is Some) ==> last_override(
                base,
                bps,
                area,
                pick,
            ) == pick(bps[k])->0,
        no_setter(bps, area, |bp: ResolvedPopupBreakpoint| pick(bp) is Some) ==> last_override(base, bps, area, pick)
            == base,
    decreases bps.len(),
{
    let sets = |bp: ResolvedPopupBreakpoint| pick(bp) is Some;
    if bps.len() > 0 {
        let n = bps.len() as int;
        let t = bps.drop_last();
        lemma_last_override_is_last_setter(base, t, area, pick);
        if breakpoint_matches(bps.last(), area) && pick(bps.last()) is Some {
            assert forall|k: int| is_last_setter(bps, area, k, sets) implies last_override(base, bps, area, pick)
                == pick(bps[k])->0 by {
                if k < n - 1 {
                    assert(breakpoint_matches(bps[n - 1], area));
                }
            }
            if no_setter(bps, area, sets) {
                assert(breakpoint_matches(bps[n - 1], area));
            }
        } else {
            assert forall|k: int| is_last_setter(bps, area, k, sets) implies last_override(base, bps, area, pick)
                == pick(bps[k])->0 by {
                assert(k < n - 1);
                assert(t[k] == bps[k]);
                assert forall|j: int| k < j < t.len() && breakpoint_matches(#[trigger] t[j], area) implies !sets(t[j]) by {
                    assert(t[j] == bps[j]);
                }
                assert(is_last_setter(t, area, k, sets));
            }
            if no_setter(bps, area, sets) {
                assert forall|j: int| 0 <= j < t.len() && breakpoint_matches(#[trigger] t[j], area) implies !sets(t[j]) by {
                    assert(t[j] == bps[j]);
                }
            }
        }
    }
}

/// Later matching breakpoints override earlier ones (and the base spec)
/// field by field: every field of the effective styling is the value set by
/// the last breakpoint that applies to the area and sets that field, or the
/// base spec's value when no applying breakpoint sets it.
pub proof fn lemma_effective_takes_last_applying_setting(spec: ResolvedPopupSpec, area: Rect, k: int)
    ensures
        ({
            let bps = spec.breakpoints@;
            let e = effective_for(spec, area);
            &&& is_last_setter(bps, area, k, |bp: ResolvedPopupBreakpoint| bp.width is Some) ==> e.width == bps[k].width->0
            &&& no_setter(bps, area, |bp: ResolvedPopupBreakpoint| bp.width is Some) ==> e.width == spec.width
            &&& is_last_setter(bps, area, k, |bp: ResolvedPopupBreakpoint| bp.height is Some) ==> e.height == bps[k].height->0
            &&& no_setter(bps, area, |bp: ResolvedPopupBreakpoint| bp.height is Some) ==> e.height == spec.height
            &&& is_last_setter(bps, area, k, |bp: ResolvedPopupBreakpoint| bp.border is Some) ==> e.border == bps[k].border->0
            &&& no_setter(bps, area, |bp: ResolvedPopupBreakpoint| bp.border is Some) ==> e.border == spec.border
            &&& is_last_setter(bps, area, k, |bp: ResolvedPopupBreakpoint| bp.border_style is Some) ==> e.border_style
                == bps[k].border_style->0
            &&& no_setter(bps, area, |bp: ResolvedPopupBreakpoint| bp.border_style is Some) ==> e.border_style
                == spec.border_style
            &&& is_last_setter(bps, area, k, |bp: ResolvedPopupBreakpoint| bp.border_color is Some) ==> e.border_color
                == bps[k].border_color->0
            &&& no_setter(bps, area, |bp: ResolvedPopupBreakpoint| bp.border_color is Some) ==> e.border_color
                == spec.border_color
            &&& is_last_setter(bps, area, k, |bp: ResolvedPopupBreakpoint| bp.padding is Some) ==> e.padding == bps[k].padding->0
            &&& no_setter(bps, area, |bp: ResolvedPopupBreakpoint| bp.padding is Some) ==> e.padding == spec.padding
            &&& is_last_setter(bps, area, k, |bp: ResolvedPopupBreakpoint| bp.bg is Some) ==> e.bg == bps[k].bg->0
            &&& no_setter(bps, area, |bp: ResolvedPopupBreakpoint| bp.bg is Some) ==> e.bg == spec.bg
            &&& is_last_setter(bps, area, k, |bp: ResolvedPopupBreakpoint| bp.title is Some) ==> e.title == bps[k].title
            &&& no_setter(bps, area, |bp: ResolvedPopupBreakpoint| bp.title is Some) ==> e.title == spec.title
        }),
{
    let bps = spec.breakpoints@;
    let e = effective_for(spec, area);
    assert((is_last_setter(bps, area, k, |bp: ResolvedPopupBreakpoint| bp.width is Some) ==> e.width == bps[k].width->0)
        && (no_setter(bps, area, |bp: ResolvedPopupBreakpoint| bp.width is Some) ==> e.width == spec.width)) by {
        lemma_last_override_is_last_setter(spec.width, bps, area, pick_width());
        assert((|bp: ResolvedPopupBreakpoint| pick_width()(bp) is Some) =~= (|bp: ResolvedPopupBreakpoint| bp.width is Some));
    }
    assert((is_last_setter(bps, area, k, |bp: ResolvedPopupBreakpoint| bp.height is Some) ==> e.height == bps[k].height->0)
        && (no_setter(bps, area, |bp: ResolvedPopupBreakpoint| bp.height is Some) ==> e.height == spec.height)) by {
        lemma_last_override_is_last_setter(spec.height, bps, area, pick_height());
        assert((|bp: ResolvedPopupBreakpoint| pick_height()(bp) is Some) =~= (|bp: ResolvedPopupBreakpoint| bp.height is Some));
    }
    assert((is_last_setter(bps, area, k, |bp: ResolvedPopupBreakpoint| bp.border is Some) ==> e.border == bps[k].border->0)
        && (no_setter(bps, area, |bp: ResolvedPopupBreakpoint| bp.border is Some) ==> e.border == spec.border)) by {
        lemma_last_override_is_last_setter(spec.border, bps, area, pick_border());
        assert((|bp: ResolvedPopupBreakpoint| pick_border()(bp) is Some) =~= (|bp: ResolvedPopupBreakpoint| bp.border is Some));
    }
    assert((is_last_setter(bps, area, k, |bp: ResolvedPopupBreakpoint| bp.border_style is Some) ==> e.border_style == bps[k].border_style->0)
        && (no_setter(bps, area, |bp: ResolvedPopupBreakpoint| bp.border_style is Some) ==> e.border_style == spec.border_style)) by {
        lemma_last_override_is_last_setter(spec.border_style, bps, area, pick_border_style());
        assert((|bp: ResolvedPopupBreakpoint| pick_border_style()(bp) is Some) =~= (|bp: ResolvedPopupBreakpoint| bp.border_style is Some));
    }
    assert((is_last_setter(bps, area, k, |bp: ResolvedPopupBreakpoint| bp.border_color is Some) ==> e.border_color == bps[k].border_color->0)
        && (no_setter(bps, area, |bp: ResolvedPopupBreakpoint| bp.border_color is Some) ==> e.border_color == spec.border_color)) by {
        lemma_last_override_is_last_setter(spec.border_color, bps, area, pick_border_color());
        assert((|bp: ResolvedPopupBreakpoint| pick_border_color()(bp) is Some) =~= (|bp: ResolvedPopupBreakpoint| bp.border_color is Some));
    }
    assert((is_last_setter(bps, area, k, |bp: ResolvedPopupBreakpoint| bp.padding is Some) ==> e.padding == bps[k].padding->0)
        && (no_setter(bps, area, |bp: ResolvedPopupBreakpoint| bp.padding is Some) ==> e.padding == spec.padding)) by {
        lemma_last_override_is_last_setter(spec.padding, bps, area, pick_padding());
        assert((|bp: ResolvedPopupBreakpoint| pick_padding()(bp) is Some) =~= (|bp: ResolvedPopupBreakpoint| bp.padding is Some));
    }
    assert((is_last_setter(bps, area, k, |bp: ResolvedPopupBreakpoint| bp.bg is Some) ==> e.bg == bps[k].bg->0)
        && (no_setter(bps, area, |bp: ResolvedPopupBreakpoint| bp.bg is Some) ==> e.bg == spec.bg)) by {
        lemma_last_override_is_last_setter(spec.bg, bps, area, pick_bg());
        assert((|bp: ResolvedPopupBreakpoint| pick_bg()(bp) is Some) =~= (|bp: ResolvedPopupBreakpoint| bp.bg is Some));
    }
    assert((is_last_setter(bps, area, k, |bp: ResolvedPopupBreakpoint| bp.title is Some) ==> e.title == bps[k].title)
        && (no_setter(bps, area, |bp: ResolvedPopupBreakpoint| bp.title is Some) ==> e.title == spec.title)) by {
        lemma_last_override_is_last_setter(spec.title, bps, area, pick_title());
        assert((|bp: ResolvedPopupBreakpoint| pick_title()(bp) is Some) =~= (|bp: ResolvedPopupBreakpoint| bp.title is Some));
    }
}


/// Cells a popup size asks for on an axis of `axis` cells: the percentage
/// (at most 100) of the axis, rounded down, or the cell count.
pub open spec fn requested_cells(size: PopupSize, axis: int) -> int {
    match size {
        PopupSize::Percent(p) => axis * (if p <= 100 { p as int } else { 100 }) / 100,
        PopupSize::Cells(c) => c as int,
    }
}

/// The outer rectangle in an area within the `u16` range: with `frame` two
/// cells when bordered, `pad` twice the padding (capped at `u16::MAX`), and
/// the smallest popup `4 + frame + pad` wide and `2 + frame + pad` high
/// (capped at `u16::MAX`), there is an outer rectangle exactly when the area
/// is at least that large; each side is then the requested size raised to the
/// smallest size and cut to the area (so a request at least as large as the
/// area gives the area's size), and the rectangle is centered, rounding toward
/// the top-left.
pub proof fn lemma_outer_rect_is_request_clamped_to_area(spec: EffectivePopupSpec, area: Rect)
    requires
        area.is_bounded(),
        (if spec.border { 2 } else { 0int }) + (if 2 * spec.padding > 65535 { 65535 } else { 2 * spec.padding })
            <= 65535,
    ensures
        spec.outer_rect_computable(area),
        ({
            let frame: int = if spec.border { 2 } else { 0 };
            let pad: int = if 2 * spec.padding > 65535 { 65535 } else { 2 * spec.padding };
            let min_w: int = if 4 + frame + pad > 65535 { 65535 } else { 4 + frame + pad };
            let min_h: int = if 2 + frame + pad > 65535 { 65535 } else { 2 + frame + pad };
            let want_w = requested_cells(spec.width, area.width as int);
            let want_h = requested_cells(spec.height, area.height as int);
            let raised_w = if want_w > min_w { want_w } else { min_w };
            let raised_h = if want_h > min_h { want_h } else { min_h };
            &&& (spec.outer_rect_in(area) is Some <==> (area.width >= min_w && area.height >= min_h))
            &&& spec.outer_rect_in(area) matches Some(o) ==> {
                &&& o.width == (if raised_w < area.width { raised_w } else { area.width as int })
                &&& o.height == (if raised_h < area.height { raised_h } else { area.height as int })
                &&& (want_w >= area.width ==> o.width == area.width)
                &&& (want_h >= area.height ==> o.height == area.height)
                &&& o.x == area.x + (area.width - o.width) / 2
                &&& o.y == area.y + (area.height - o.height) / 2
            }
        }),
{
    lemma_outer_rect_centered_within_area(spec, area);
}

/// The content rectangle inside an outer rectangle `o` within the `u16`
/// range: with `inset` one cell when bordered plus the padding, it starts
/// `inset` cells right of and below `o`'s corner and is `2 * inset` cells
/// narrower and lower than `o` (zero when `o` is not larger than that).
pub proof fn lemma_inner_rect_is_outer_minus_inset(spec: EffectivePopupSpec, o: Rect)
    requires
        o.is_bounded(),
        (if spec.border { 1 } else { 0int }) + spec.padding <= 32767,
    ensures
        ({
            let inset: int = (if spec.border { 1 } else { 0int }) + spec.padding;
            let i = spec.inner_rect_of(o);
            &&& (o.x + inset <= 65535 ==> i.x == o.x + inset)
            &&& (o.y + inset <= 65535 ==> i.y == o.y + inset)
            &&& i.width == (if o.width >= 2 * inset { o.width - 2 * inset } else { 0 })
            &&& i.height == (if o.height >= 2 * inset { o.height - 2 * inset } else { 0 })
        }),
{
}

/// A resolved breakpoint keeps the wire breakpoint's limits, border, border
/// style, padding and title unchanged; a set width or height becomes the same
/// percentage or cell count; a color is set exactly when its name is set.
pub proof fn lemma_resolved_breakpoint_keeps_wire_fields(bp: PopupBreakpointSpec)
    ensures
        ({
            let r = resolved_breakpoint(bp);
            &&& r.max_cols == bp.max_cols
            &&& r.max_rows == bp.max_rows
            &&& r.border == bp.border
            &&& r.border_style == bp.border_style
            &&& r.padding == bp.padding
            &&& r.title == bp.title
            &&& (bp.width matches Some(PopupDimension::Percent(p)) ==> r.width == Some(PopupSize::Percent(p)))
            &&& (bp.width matches Some(PopupDimension::Cells(c)) ==> r.width == Some(PopupSize::Cells(c)))
            &&& (bp.width is None ==> r.width is None)
            &&& (bp.height matches Some(PopupDimension::Percent(p)) ==> r.height == Some(PopupSize::Percent(p)))
            &&& (bp.height matches Some(PopupDimension::Cells(c)) ==> r.height == Some(PopupSize::Cells(c)))
            &&& (bp.height is None ==> r.height is None)
            &&& (r.border_color is Some <==> bp.border_color is Some)
            &&& (r.bg is Some <==> bp.bg is Some)
            &&& (bp.border_color matches Some(name) ==> r.border_color == Some(resolved_color(name@)))
            &&& (bp.bg matches Some(name) ==> r.bg == Some(resolved_color(name@)))
        }),
{
}

/// Resolving a wire spec keeps what it sets: a set width or height becomes the
/// same percentage or cell count (60% when unset); set colors resolve by name
/// and unset ones take the given defaults; every breakpoint keeps its wire
/// fields.
pub proof fn lemma_from_spec_keeps_wire_fields(spec: PopupSpec, r: ResolvedPopupSpec, border_color: Color, bg: Color)
    requires
        r.width == size_of_dimension(spec.width, POPUP_DEFAULT_WIDTH_PCT),
        r.height == size_of_dimension(spec.height, POPUP_DEFAULT_HEIGHT_PCT),
        r.border_color == optional_color(spec.border_color, border_color),
        r.bg == optional_color(spec.bg, bg),
        r.breakpoints@.len() == spec.breakpoints@.len(),
        forall|i: int| 0 <= i < spec.breakpoints@.len() ==> #[trigger] r.breakpoints@[i] == resolved_breakpoint(
            spec.breakpoints@[i],
        ),
    ensures
        spec.width matches Some(PopupDimension::Percent(p)) ==> r.width == PopupSize::Percent(p),
        spec.width matches Some(PopupDimension::Cells(c)) ==> r.width == PopupSize::Cells(c),
        spec.width is None ==> r.width == PopupSize::Percent(60),
        spec.height matches Some(PopupDimension::Percent(p)) ==> r.height == PopupSize::Percent(p),
        spec.height matches Some(PopupDimension::Cells(c)) ==> r.height == PopupSize::Cells(c),
        spec.height is None ==> r.height == PopupSize::Percent(60),
        spec.border_color is None ==> r.border_color == border_color,
        spec.bg is None ==> r.bg == bg,
        spec.border_color matches Some(name) ==> r.border_color == resolved_color(name@),
        spec.bg matches Some(name) ==> r.bg == resolved_color(name@),
        forall|i: int| 0 <= i < spec.breakpoints@.len() ==> {
            &&& (#[trigger] r.breakpoints@[i]).border_style == spec.breakpoints@[i].border_style
            &&& r.breakpoints@[i].max_cols == spec.breakpoints@[i].max_cols
            &&& r.breakpoints@[i].max_rows == spec.breakpoints@[i].max_rows
            &&& r.breakpoints@[i].border == spec.breakpoints@[i].border
            &&& r.breakpoints@[i].padding == spec.breakpoints@[i].padding
            &&& r.breakpoints@[i].title == spec.breakpoints@[i].title
        },
{
    assert forall|i: int| 0 <= i < spec.breakpoints@.len() implies {
        &&& (#[trigger] r.breakpoints@[i]).border_style == spec.breakpoints@[i].border_style
        &&& r.breakpoints@[i].max_cols == spec.breakpoints@[i].max_cols
        &&& r.breakpoints@[i].max_rows == spec.breakpoints@[i].max_rows
        &&& r.breakpoints@[i].border == spec.breakpoints@[i].border
        &&& r.breakpoints@[i].padding == spec.breakpoints@[i].padding
        &&& r.breakpoints@[i].title == spec.breakpoints@[i].title
    } by {
        lemma_resolved_breakpoint_keeps_wire_fields(spec.breakpoints@[i]);
    }
}

} // verus!
