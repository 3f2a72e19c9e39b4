//! Floating-note placement: what Super+N does to the main note, and the
//! default top-right box on a monitor.

use vstd::prelude::*;

verus! {

/// What Super+N does to the main floating note.
#[derive(Clone, Copy, Debug, PartialEq, Eq, Structural)]
pub enum ToggleAction {
    /// The window is hidden. Show it and focus it.
    Show,
    /// The window is on screen but another window has focus. Focus the note.
    Focus,
    /// The note itself is focused. Hide it.
    Hide,
}

/// The toggle decision: a visible and focused note hides, a visible note without focus
/// gains it, and a hidden note shows whatever its focus.
pub open spec fn toggle_spec(visible: bool, focused: bool) -> ToggleAction {
    if !visible {
        ToggleAction::Show
    } else if focused {
        ToggleAction::Hide
    } else {
        ToggleAction::Focus
    }
}

pub fn toggle_action(visible: bool, focused: bool) -> (r: ToggleAction)
    ensures
        r == toggle_spec(visible, focused),
{
    match (visible, focused) {
        (true, false) => ToggleAction::Focus,
        (true, true) => ToggleAction::Hide,
        (false, _) => ToggleAction::Show,
    }
}

/// Layout-pixel box. `x` and `y` are global, the same coordinates the compositor reports.
#[derive(Clone, Copy, Debug, PartialEq, Eq, Structural)]
pub struct WindowGeometry {
    pub x: i32,
    pub y: i32,
    pub width: i32,
    pub height: i32,
}

pub const DEFAULT_WIDTH: i32 = 460;

pub const DEFAULT_HEIGHT: i32 = 420;

/// Sits just under the desktop bar.
pub const DEFAULT_TOP: i32 = 34;

pub const DEFAULT_RIGHT_MARGIN: i32 = 4;

pub open spec fn min_int(a: int, b: int) -> int {
    if a <= b {
        a
    } else {
        b
    }
}

pub open spec fn max_int(a: int, b: int) -> int {
    if a >= b {
        a
    } else {
        b
    }
}

/// The default width on a monitor `monitor_w` layout pixels wide: the preferred width,
/// shrunk to the monitor, and never below one pixel.
pub open spec fn default_width(monitor_w: int) -> int {
    min_int(DEFAULT_WIDTH as int, max_int(monitor_w, 1))
}

pub open spec fn default_height(monitor_h: int) -> int {
    min_int(DEFAULT_HEIGHT as int, max_int(monitor_h, 1))
}

/// Left edge: flush right with the margin, but never left of the monitor's origin.
pub open spec fn default_x(origin_x: int, monitor_w: int) -> int {
    origin_x + max_int(monitor_w - default_width(monitor_w) - DEFAULT_RIGHT_MARGIN as int, 0)
}

/// Top edge: just under the bar, moved up as far as the monitor needs, never above its origin.
pub open spec fn default_y(origin_y: int, monitor_h: int) -> int {
    origin_y + min_int(DEFAULT_TOP as int, max_int(monitor_h - default_height(monitor_h), 0))
}

/// Whether the default box on this monitor is representable in `i32` layout pixels.
pub open spec fn default_geometry_fits(
    origin_x: int,
    origin_y: int,
    monitor_w: int,
    monitor_h: int,
) -> bool {
    &&& i32::MIN <= monitor_w - default_width(monitor_w) - DEFAULT_RIGHT_MARGIN as int
    &&& i32::MIN <= monitor_h - default_height(monitor_h)
    &&& i32::MIN <= default_x(origin_x, monitor_w) <= i32::MAX
    &&& i32::MIN <= default_y(origin_y, monitor_h) <= i32::MAX
}

/// Top-right of a monitor. `origin_*` is the monitor's position in the layout,
/// `monitor_w` / `monitor_h` are its size in layout pixels (physical size divided by scale).
pub fn default_geometry(origin_x: i32, origin_y: i32, monitor_w: i32, monitor_h: i32) -> (g:
    WindowGeometry)
    requires
        default_geometry_fits(origin_x as int, origin_y as int, monitor_w as int, monitor_h as int),
    ensures
        g.width == default_width(monitor_w as int),
        g.height == default_height(monitor_h as int),
        g.x == default_x(origin_x as int, monitor_w as int),
        g.y == default_y(origin_y as int, monitor_h as int),
{
    let width = if monitor_w < 1 { 1 } else { monitor_w };
    let width = if DEFAULT_WIDTH <= width { DEFAULT_WIDTH } else { width };
    let height = if monitor_h < 1 { 1 } else { monitor_h };
    let height = if DEFAULT_HEIGHT <= height { DEFAULT_HEIGHT } else { height };
    let room_x = monitor_w - width - DEFAULT_RIGHT_MARGIN;
    let x = origin_x + if room_x < 0 { 0 } else { room_x };
    let room_y = monitor_h - height;
    let room_y = if room_y < 0 { 0 } else { room_y };
    let y = origin_y + if DEFAULT_TOP <= room_y { DEFAULT_TOP } else { room_y };
    WindowGeometry { x, y, width, height }
}


/// The default box on this monitor (see `default_geometry`), or None where it is not
/// representable in `i32` layout pixels.
pub fn checked_default_geometry(origin_x: i32, origin_y: i32, monitor_w: i32, monitor_h: i32) -> (r:
    Option<WindowGeometry>)
    ensures
        match r {
            Some(g) => {
                &&& default_geometry_fits(
                    origin_x as int,
                    origin_y as int,
                    monitor_w as int,
                    monitor_h as int,
                )
                &&& g.width == default_width(monitor_w as int)
                &&& g.height == default_height(monitor_h as int)
                &&& g.x == default_x(origin_x as int, monitor_w as int)
                &&& g.y == default_y(origin_y as int, monitor_h as int)
            },
            None => !default_geometry_fits(
                origin_x as int,
                origin_y as int,
                monitor_w as int,
                monitor_h as int,
            ),
        },
{
    let w = monitor_w as i64;
    let h = monitor_h as i64;
    let width: i64 = if w < 1 { 1 } else { w };
    let width: i64 = if 460 <= width { 460 } else { width };
    let height: i64 = if h < 1 { 1 } else { h };
    let height: i64 = if 420 <= height { 420 } else { height };
    let room_x: i64 = w - width - 4;
    let x: i64 = origin_x as i64 + if room_x < 0 { 0 } else { room_x };
    let room_y: i64 = h - height;
    let free_y: i64 = if room_y < 0 { 0 } else { room_y };
    let y: i64 = origin_y as i64 + if 34 <= free_y { 34 } else { free_y };
    let lo: i64 = i32::MIN as i64;
    let hi: i64 = i32::MAX as i64;
    if room_x < lo || room_y < lo || x < lo || x > hi || y < lo || y > hi {
        None
    } else {
        Some(default_geometry(origin_x, origin_y, monitor_w, monitor_h))
    }
}

} // verus!
