//! Rectangle editing arithmetic for the canvas: how a pointer drag
//! reshapes or moves the selected mat, given which edge or corner the
//! gesture grabbed.

use vstd::prelude::*;

verus! {

/// Which part of the selection rectangle the pointer is on: a corner,
/// an edge, the grabbable middle, or nothing.
#[derive(Debug, Clone, Copy, PartialEq, Eq, Structural)]
pub enum CursorState {
    Nw,
    N,
    Ne,
    E,
    Se,
    S,
    Sw,
    W,
    G,
    Idle,
}

/// The rectangle a drag gesture produces: `(x, y, w, h)` reshaped
/// toward the pointer `(px, py)` along the grabbed edge or corner, or
/// translated by the drag distance when the middle is grabbed.  An edge
/// never crosses its opposite edge, and a grab never pushes the origin
/// to or past zero; a crossing pointer leaves that coordinate as it
/// was.
pub open spec fn gesture_update_rect_spec(
    x: int,
    y: int,
    w: int,
    h: int,
    begin_x: int,
    begin_y: int,
    mat_orig_x: int,
    mat_orig_y: int,
    px: int,
    py: int,
    cst: CursorState,
) -> (int, int, int, int) {
    let west_x = if px < x + w {
        px
    } else {
        x
    };
    let west_w = if px < x + w {
        x + w - px
    } else {
        w
    };
    let north_y = if py < y + h {
        py
    } else {
        y
    };
    let north_h = if py < y + h {
        y + h - py
    } else {
        h
    };
    let east_w = if x < px {
        px - x
    } else {
        w
    };
    let south_h = if y < py {
        py - y
    } else {
        h
    };
    match cst {
        CursorState::Nw => (west_x, north_y, west_w, north_h),
        CursorState::N => (x, north_y, w, north_h),
        CursorState::Ne => (x, north_y, east_w, north_h),
        CursorState::E => (x, y, east_w, h),
        CursorState::Se => (x, y, east_w, south_h),
        CursorState::S => (x, y, w, south_h),
        CursorState::Sw => (west_x, y, west_w, south_h),
        CursorState::W => (west_x, y, west_w, h),
        CursorState::G => {
            let dx = px - begin_x;
            let dy = py - begin_y;
            let gx = if 0 < mat_orig_x + dx {
                mat_orig_x + dx
            } else {
                x
            };
            let gy = if 0 < mat_orig_y + dy {
                mat_orig_y + dy
            } else {
                y
            };
            (gx, gy, w, h)
        },
        CursorState::Idle => (x, y, w, h),
    }
}

pub fn gesture_update_rect(
    x: i32,
    y: i32,
    w: i32,
    h: i32,
    begin_x: i32,
    begin_y: i32,
    mat_orig_x: i32,
    mat_orig_y: i32,
    px: i32,
    py: i32,
    cst: CursorState,
) -> (r: (i32, i32, i32, i32))
    requires
        i32::MIN <= x + w <= i32::MAX,
        i32::MIN <= y + h <= i32::MAX,
        i32::MIN <= x + w - px <= i32::MAX,
        i32::MIN <= y + h - py <= i32::MAX,
        i32::MIN <= px - x <= i32::MAX,
        i32::MIN <= py - y <= i32::MAX,
        i32::MIN <= px - begin_x <= i32::MAX,
        i32::MIN <= py - begin_y <= i32::MAX,
        i32::MIN <= mat_orig_x + (px - begin_x) <= i32::MAX,
        i32::MIN <= mat_orig_y + (py - begin_y) <= i32::MAX,
    ensures
        (r.0 as int, r.1 as int, r.2 as int, r.3 as int) == gesture_update_rect_spec(
            x as int,
            y as int,
            w as int,
            h as int,
            begin_x as int,
            begin_y as int,
            mat_orig_x as int,
            mat_orig_y as int,
            px as int,
            py as int,
            cst,
        ),
{
    let mut new_x = x;
    let mut new_y = y;
    let mut new_w = w;
    let mut new_h = h;
    match cst {
        CursorState::Nw => {
            if px < x + w {
                new_x = px;
                new_w = x + w - px;
            }
            if py < y + h {
                new_h = y + h - py;
                new_y = py;
            }
        },
        CursorState::N => {
            if py < y + h {
                new_h = y + h - py;
                new_y = py;
            }
        },
        CursorState::Ne => {
            if x < px {
                new_w = px - x;
            }
            if py < y + h {
                new_h = y + h - py;
                new_y = py;
            }
        },
        CursorState::E => {
            if x < px {
                new_w = px - x;
            }
        },
        CursorState::Se => {
            if x < px {
                new_w = px - x;
            }
            if y < py {
                new_h = py - y;
            }
        },
        CursorState::S => {
            if y < py {
                new_h = py - y;
            }
        },
        CursorState::Sw => {
            if px < x + w {
                new_x = px;
                new_w = x + w - px;
            }
            if y < py {
                new_h = py - y;
            }
        },
        CursorState::W => {
            if px < x + w {
                new_x = px;
                new_w = x + w - px;
            }
        },
        CursorState::G => {
            let dx = px - begin_x;
            let dy = py - begin_y;
            if 0 < mat_orig_x + dx {
                new_x = mat_orig_x + dx;
            }
            if 0 < mat_orig_y + dy {
                new_y = mat_orig_y + dy;
            }
        },
        CursorState::Idle => {},
    }
    (new_x, new_y, new_w, new_h)
}

} // verus!
