use vstd::prelude::*;

verus! {

/// The caret (or cursor) rectangle, the window size and the screen bounds
/// that place the clipboard window.
pub struct LayoutContext {
    pub window_width: i32,
    pub window_height: i32,
    pub spacing: i32,
    pub screen_left: i32,
    pub screen_top: i32,
    pub screen_right: i32,
    pub screen_bottom: i32,
    pub cursor_left: i32,
    pub cursor_top: i32,
    pub cursor_right: i32,
    pub cursor_bottom: i32,
}

pub open spec fn in_i32(v: int) -> bool {
    i32::MIN <= v <= i32::MAX
}

/// Rust's integer division by two, which rounds toward zero.
pub open spec fn half_toward_zero(a: int) -> int {
    if a >= 0 {
        a / 2
    } else {
        -((-a) / 2)
    }
}

/// `x` moved left so that the window ends at the screen's right edge, then
/// right so that it starts at the screen's left edge.
pub open spec fn fit_x_right_first(c: LayoutContext, x: int) -> int {
    let x1 = if x + c.window_width > c.screen_right {
        c.screen_right - c.window_width
    } else {
        x
    };
    if x1 < c.screen_left {
        c.screen_left as int
    } else {
        x1
    }
}

/// `x` moved right to the screen's left edge, then left so that the window
/// ends at the screen's right edge.
pub open spec fn fit_x_left_first(c: LayoutContext, x: int) -> int {
    let x1 = if x < c.screen_left {
        c.screen_left as int
    } else {
        x
    };
    if x1 + c.window_width > c.screen_right {
        c.screen_right - c.window_width
    } else {
        x1
    }
}

/// `y` moved up so that the window ends at the screen's bottom, then down to
/// the screen's top.
pub open spec fn fit_y_bottom_first(c: LayoutContext, y: int) -> int {
    let y1 = if y + c.window_height > c.screen_bottom {
        c.screen_bottom - c.window_height
    } else {
        y
    };
    if y1 < c.screen_top {
        c.screen_top as int
    } else {
        y1
    }
}

/// `y` moved down to the screen's top, then up so that the window ends at the
/// screen's bottom.
pub open spec fn fit_y_top_first(c: LayoutContext, y: int) -> int {
    let y1 = if y < c.screen_top {
        c.screen_top as int
    } else {
        y
    };
    if y1 + c.window_height > c.screen_bottom {
        c.screen_bottom - c.window_height
    } else {
        y1
    }
}

/// Whether the two steps of `fit_x_right_first` stay within `i32`.
pub open spec fn fit_x_right_first_ok(c: LayoutContext, x: int) -> bool {
    in_i32(x + c.window_width) && (x + c.window_width > c.screen_right ==> in_i32(
        c.screen_right - c.window_width,
    ))
}

pub open spec fn fit_x_left_first_ok(c: LayoutContext, x: int) -> bool {
    let x1 = if x < c.screen_left {
        c.screen_left as int
    } else {
        x
    };
    in_i32(x1 + c.window_width) && (x1 + c.window_width > c.screen_right ==> in_i32(
        c.screen_right - c.window_width,
    ))
}

pub open spec fn fit_y_bottom_first_ok(c: LayoutContext, y: int) -> bool {
    in_i32(y + c.window_height) && (y + c.window_height > c.screen_bottom ==> in_i32(
        c.screen_bottom - c.window_height,
    ))
}

pub open spec fn fit_y_top_first_ok(c: LayoutContext, y: int) -> bool {
    let y1 = if y < c.screen_top {
        c.screen_top as int
    } else {
        y
    };
    in_i32(y1 + c.window_height) && (y1 + c.window_height > c.screen_bottom ==> in_i32(
        c.screen_bottom - c.window_height,
    ))
}

/// Below the caret, left-aligned with it.
pub open spec fn bottom_place(c: LayoutContext) -> (int, int) {
    (
        fit_x_right_first(c, c.cursor_left as int),
        fit_y_bottom_first(c, c.cursor_bottom + c.spacing),
    )
}

pub open spec fn bottom_ok(c: LayoutContext) -> bool {
    &&& fit_x_right_first_ok(c, c.cursor_left as int)
    &&& in_i32(c.cursor_bottom + c.spacing)
    &&& fit_y_bottom_first_ok(c, c.cursor_bottom + c.spacing)
}

/// Above the caret, left-aligned with it.
pub open spec fn top_place(c: LayoutContext) -> (int, int) {
    (
        fit_x_right_first(c, c.cursor_left as int),
        fit_y_top_first(c, c.cursor_top - c.window_height - c.spacing),
    )
}

pub open spec fn top_ok(c: LayoutContext) -> bool {
    &&& fit_x_right_first_ok(c, c.cursor_left as int)
    &&& in_i32(c.cursor_top - c.window_height)
    &&& in_i32(c.cursor_top - c.window_height - c.spacing)
    &&& fit_y_top_first_ok(c, c.cursor_top - c.window_height - c.spacing)
}

/// The top of a window centred vertically on the caret.
pub open spec fn centred_y(c: LayoutContext) -> int {
    half_toward_zero(c.cursor_top + c.cursor_bottom) - half_toward_zero(c.window_height as int)
}

pub open spec fn centred_y_ok(c: LayoutContext) -> bool {
    in_i32(c.cursor_top + c.cursor_bottom) && in_i32(centred_y(c))
}

/// Left of the caret, centred on it vertically.
pub open spec fn left_place(c: LayoutContext) -> (int, int) {
    (
        fit_x_left_first(c, c.cursor_left - c.window_width - c.spacing),
        fit_y_top_first(c, centred_y(c)),
    )
}

pub open spec fn left_ok(c: LayoutContext) -> bool {
    &&& centred_y_ok(c)
    &&& in_i32(c.cursor_left - c.window_width)
    &&& in_i32(c.cursor_left - c.window_width - c.spacing)
    &&& fit_y_top_first_ok(c, centred_y(c))
    &&& fit_x_left_first_ok(c, c.cursor_left - c.window_width - c.spacing)
}

/// Right of the caret, centred on it vertically.
pub open spec fn right_place(c: LayoutContext) -> (int, int) {
    (
        fit_x_right_first(c, c.cursor_right + c.spacing),
        fit_y_top_first(c, centred_y(c)),
    )
}

pub open spec fn right_ok(c: LayoutContext) -> bool {
    &&& centred_y_ok(c)
    &&& in_i32(c.cursor_right + c.spacing)
    &&& fit_y_top_first_ok(c, centred_y(c))
    &&& fit_x_right_first_ok(c, c.cursor_right + c.spacing)
}

/// Whether a window at `p` covers part of the caret rectangle.
pub open spec fn overlaps(c: LayoutContext, p: (int, int)) -> bool {
    !(p.0 + c.window_width <= c.cursor_left || p.0 >= c.cursor_right || p.1 + c.window_height
        <= c.cursor_top || p.1 >= c.cursor_bottom)
}

pub open spec fn overlap_ok(c: LayoutContext, p: (int, int)) -> bool {
    in_i32(p.0 + c.window_width) && in_i32(p.1 + c.window_height)
}

/// Whether every computation of the placement stays within `i32`.
pub open spec fn placement_ok(c: LayoutContext) -> bool {
    &&& bottom_ok(c)
    &&& overlap_ok(c, bottom_place(c))
    &&& overlaps(c, bottom_place(c)) ==> {
        &&& top_ok(c)
        &&& overlap_ok(c, top_place(c))
        &&& overlaps(c, top_place(c)) ==> {
            &&& left_ok(c)
            &&& overlap_ok(c, left_place(c))
            &&& overlaps(c, left_place(c)) ==> {
                &&& right_ok(c)
                &&& overlap_ok(c, right_place(c))
            }
        }
    }
}

/// The window position: the first of below, above, left of and right of the
/// caret that does not cover it, else right of it.
pub open spec fn best_place(c: LayoutContext) -> (int, int) {
    if !overlaps(c, bottom_place(c)) {
        bottom_place(c)
    } else if !overlaps(c, top_place(c)) {
        top_place(c)
    } else if !overlaps(c, left_place(c)) {
        left_place(c)
    } else {
        right_place(c)
    }
}

/// Below the caret, kept on the screen.
pub fn position_bottom(ctx: &LayoutContext) -> (p: (i32, i32))
    requires
        bottom_ok(*ctx),
    ensures
        (p.0 as int, p.1 as int) == bottom_place(*ctx),
{
    let mut win_x = ctx.cursor_left;
    let mut win_y = ctx.cursor_bottom + ctx.spacing;

    if win_x + ctx.window_width > ctx.screen_right {
        win_x = ctx.screen_right - ctx.window_width;
    }
    if win_x < ctx.screen_left {
        win_x = ctx.screen_left;
    }
    if win_y + ctx.window_height > ctx.screen_bottom {
        win_y = ctx.screen_bottom - ctx.window_height;
    }
    if win_y < ctx.screen_top {
        win_y = ctx.screen_top;
    }
    (win_x, win_y)
}

/// Above the caret, kept on the screen.
pub fn position_top(ctx: &LayoutContext) -> (p: (i32, i32))
    requires
        top_ok(*ctx),
    ensures
        (p.0 as int, p.1 as int) == top_place(*ctx),
{
    let mut win_x = ctx.cursor_left;
    let mut win_y = ctx.cursor_top - ctx.window_height - ctx.spacing;

    if win_x + ctx.window_width > ctx.screen_right {
        win_x = ctx.screen_right - ctx.window_width;
    }
    if win_x < ctx.screen_left {
        win_x = ctx.screen_left;
    }
    if win_y < ctx.screen_top {
        win_y = ctx.screen_top;
    }
    if win_y + ctx.window_height > ctx.screen_bottom {
        win_y = ctx.screen_bottom - ctx.window_height;
    }
    (win_x, win_y)
}

/// Left of the caret, centred on it vertically and kept on the screen.
pub fn position_left(ctx: &LayoutContext) -> (p: (i32, i32))
    requires
        left_ok(*ctx),
    ensures
        (p.0 as int, p.1 as int) == left_place(*ctx),
{
    let cursor_center_y = (ctx.cursor_top + ctx.cursor_bottom) / 2;
    let mut win_y = cursor_center_y - ctx.window_height / 2;
    let mut win_x = ctx.cursor_left - ctx.window_width - ctx.spacing;

    if win_y < ctx.screen_top {
        win_y = ctx.screen_top;
    }
    if win_y + ctx.window_height > ctx.screen_bottom {
        win_y = ctx.screen_bottom - ctx.window_height;
    }
    if win_x < ctx.screen_left {
        win_x = ctx.screen_left;
    }
    if win_x + ctx.window_width > ctx.screen_right {
        win_x = ctx.screen_right - ctx.window_width;
    }
    (win_x, win_y)
}

/// Right of the caret, centred on it vertically and kept on the screen.
pub fn position_right(ctx: &LayoutContext) -> (p: (i32, i32))
    requires
        right_ok(*ctx),
    ensures
        (p.0 as int, p.1 as int) == right_place(*ctx),
{
    let cursor_center_y = (ctx.cursor_top + ctx.cursor_bottom) / 2;
    let mut win_y = cursor_center_y - ctx.window_height / 2;
    let mut win_x = ctx.cursor_right + ctx.spacing;

    if win_y < ctx.screen_top {
        win_y = ctx.screen_top;
    }
    if win_y + ctx.window_height > ctx.screen_bottom {
        win_y = ctx.screen_bottom - ctx.window_height;
    }
    if win_x + ctx.window_width > ctx.screen_right {
        win_x = ctx.screen_right - ctx.window_width;
    }
    if win_x < ctx.screen_left {
        win_x = ctx.screen_left;
    }
    (win_x, win_y)
}

fn covers_cursor(ctx: &LayoutContext, p: (i32, i32)) -> (r: bool)
    requires
        overlap_ok(*ctx, (p.0 as int, p.1 as int)),
    ensures
        r == overlaps(*ctx, (p.0 as int, p.1 as int)),
{
    !(p.0 + ctx.window_width <= ctx.cursor_left || p.0 >= ctx.cursor_right || p.1
        + ctx.window_height <= ctx.cursor_top || p.1 >= ctx.cursor_bottom)
}

/// Where to place the clipboard window next to the caret rectangle: the first
/// of below, above, left of and right of the caret that does not cover it
/// (right of it where all do), kept on the screen.
pub fn compute_best_window_position(
    cursor_left: i32,
    cursor_top: i32,
    cursor_right: i32,
    cursor_bottom: i32,
    window_width: i32,
    window_height: i32,
    spacing: i32,
    screen_left: i32,
    screen_top: i32,
    screen_right: i32,
    screen_bottom: i32,
) -> (p: (i32, i32))
    requires
        placement_ok(
            LayoutContext {
                window_width,
                window_height,
                spacing,
                screen_left,
                screen_top,
                screen_right,
                screen_bottom,
                cursor_left,
                cursor_top,
                cursor_right,
                cursor_bottom,
            },
        ),
    ensures
        (p.0 as int, p.1 as int) == best_place(
            LayoutContext {
                window_width,
                window_height,
                spacing,
                screen_left,
                screen_top,
                screen_right,
                screen_bottom,
                cursor_left,
                cursor_top,
                cursor_right,
                cursor_bottom,
            },
        ),
{
    let ctx = LayoutContext {
        window_width,
        window_height,
        spacing,
        screen_left,
        screen_top,
        screen_right,
        screen_bottom,
        cursor_left,
        cursor_top,
        cursor_right,
        cursor_bottom,
    };
    let below = position_bottom(&ctx);
    if !covers_cursor(&ctx, below) {
        return below;
    }
    let above = position_top(&ctx);
    if !covers_cursor(&ctx, above) {
        return above;
    }
    let left = position_left(&ctx);
    if !covers_cursor(&ctx, left) {
        return left;
    }
    let right = position_right(&ctx);
    let _ = covers_cursor(&ctx, right);
    right
}

/// Whether a rectangle has positive width and height.
pub fn is_valid_rect(rect: (i32, i32, i32, i32)) -> (r: bool)
    ensures
        r == (rect.2 > rect.0 && rect.3 > rect.1),
{
    let (left, top, right, bottom) = rect;
    right > left && bottom > top
}

/// Wherever the window fits on the screen, it is placed wholly on it.
pub proof fn law_window_stays_on_screen(c: LayoutContext)
    requires
        c.window_width <= c.screen_right - c.screen_left,
        c.window_height <= c.screen_bottom - c.screen_top,
    ensures
        c.screen_left <= best_place(c).0,
        best_place(c).0 + c.window_width <= c.screen_right,
        c.screen_top <= best_place(c).1,
        best_place(c).1 + c.window_height <= c.screen_bottom,
{
}

} // verus!
