//! The display: owner of the logical framebuffer, the object arena, the
//! camera table and the per-frame command queues. Logic commands mutate
//! state; draw commands produce pixels. Every command's effect is pinned
//! down by the `logic_step` and `draw_step` specifications.

use vstd::prelude::*;

use crate::input::InputState;
use crate::object::Object;
use crate::renderer::{
    blit_object_spec, camera_cell_x, camera_cell_y, capture_spec, object_base, object_fits,
    with_color_spec, write_pixels_spec, zero_seq, zero_vec, Camera, Pixel, RenderHook,
};
use crate::screens::{
    draw_calls_spec, same_screen_kind, transition_target, update_calls, update_kill,
    update_transitions, Screen,
};
use crate::shared::{
    cell_coord, clamp_spec, nudge_spec, plus_spec, Point, Size, BPP, FP_ONE, MAX_CELL, MIN_CELL,
};
use crate::sprite::valid_size;

verus! {

/// Number of slots in the object arena.
pub const OBJECT_CAPACITY: usize = 2048;

/// Number of slots in the camera table.
pub const CAMERA_COUNT: usize = 16;

/// Commands a screen sends to produce pixels during the render phase.
#[derive(Clone, Copy, Debug)]
pub enum DrawCall {
    /// Zeroes the logical framebuffer.
    ClearDisplay,
    /// Translates the display's logical position.
    Move(Point),
    /// Queues the object under this arena key for blitting.
    DrawObject(usize),
    /// Flushes the accumulated pixel commands into the framebuffer.
    DrawPixels,
}

/// Commands a screen sends to mutate display state during the logic
/// phase.
pub enum LogicCall {
    /// Writes an object into the arena slot under this key.
    InitObject(usize, Object),
    /// Sets an object's position, clamped into the display.
    SetObject(usize, Point),
    /// Nudges an object's position, clamped into the display.
    MoveObject(usize, Point, i64),
    /// Queues one pixel of the given color at the point.
    PixelAt(Point, [u8; 4]),
    /// Queues one opaque black pixel at the point (erasure).
    DeleteAt(Point),
    /// Queues pixels filling the whole rectangle between the corners.
    FillRange(Point, Point, [u8; 4]),
    /// Queues opaque black pixels over the whole rectangle.
    DelRange(Point, Point),
    /// Queues pixels along the rectangle's four border edges only.
    Rectangle(Point, Point, [u8; 4]),
    /// Sets a camera's size (rejected when larger than the display) and
    /// clamped position.
    SetCamera(usize, Size, Point),
    /// Nudges a camera's position, clamped into the display.
    MoveCamera(usize, Point, i64),
    /// Chooses which camera the renderer presents, or none for a full
    /// copy.
    SetOutputCamera(Option<usize>),
    /// Resizes the logical display and its framebuffer together.
    SetDisplaySize(Size),
}

/// The mathematical state of a display that logic and draw commands act
/// on.
pub ghost struct DisplayModel {
    pub position: Point,
    pub display_size: Size,
    pub current_camera: Option<usize>,
    pub cameras: Seq<Camera>,
    pub objects: Seq<Object>,
    pub objects_max_index: int,
    pub buffer: Seq<u8>,
    pub pixels: Seq<Pixel>,
    pub draw_queue: Seq<usize>,
}

/// Saturating difference of two whole-pixel extents.
pub open spec fn avail_span(container: nat, item: nat) -> int {
    if container >= item {
        container - item
    } else {
        0
    }
}

/// A point clamped so that an item of the given size stays inside the
/// container, saturating at zero when the item is larger.
pub open spec fn clamp_into(p: Point, container: Size, item: Size) -> Point {
    Point {
        x: clamp_spec(p.x as int, 0, avail_span(container.width as nat, item.width as nat) * FP_ONE)
            as i64,
        y: clamp_spec(
            p.y as int,
            0,
            avail_span(container.height as nat, item.height as nat) * FP_ONE,
        ) as i64,
    }
}

/// The camera table slot a key addresses: keys are clamped to the table.
pub open spec fn camera_slot(key: usize) -> int {
    if key < 15 {
        key as int
    } else {
        15
    }
}

/// A pixel command for one whole cell of the grid.
pub open spec fn cell_pixel(x: int, y: int, color: [u8; 4]) -> Pixel {
    with_color_spec(Point { x: (x * FP_ONE) as i64, y: (y * FP_ONE) as i64 }, color)
}

/// One column of filled cells, rows y1 through y2 inclusive, top down.
pub open spec fn col_cells(x: int, y1: int, y2: int, color: [u8; 4]) -> Seq<Pixel>
    decreases y2 - y1 + 1,
{
    if y1 > y2 {
        Seq::empty()
    } else {
        col_cells(x, y1, y2 - 1, color).push(cell_pixel(x, y2, color))
    }
}

/// All cells of the rectangle, column by column, left to right.
pub open spec fn fill_cells(x1: int, x2: int, y1: int, y2: int, color: [u8; 4]) -> Seq<Pixel>
    decreases x2 - x1 + 1,
{
    if x1 > x2 {
        Seq::empty()
    } else {
        fill_cells(x1, x2 - 1, y1, y2, color) + col_cells(x2, y1, y2, color)
    }
}

/// The pixels a fill between two corner points produces: the corners are
/// canonicalized per axis, quantized to cells, and every cell in the
/// closed rectangle gets one pixel command.
pub open spec fn fill_pixels_spec(a: Point, b: Point, color: [u8; 4]) -> Seq<Pixel> {
    let ax = cell_coord(a.x as int);
    let bx = cell_coord(b.x as int);
    let ay = cell_coord(a.y as int);
    let by = cell_coord(b.y as int);
    let x1 = if ax <= bx {
        ax
    } else {
        bx
    };
    let x2 = if ax <= bx {
        bx
    } else {
        ax
    };
    let y1 = if ay <= by {
        ay
    } else {
        by
    };
    let y2 = if ay <= by {
        by
    } else {
        ay
    };
    fill_cells(x1, x2, y1, y2, color)
}

/// The top and bottom rows of a rectangle outline: two pixels per
/// column.
pub open spec fn rect_rows(x1: int, x2: int, ytop: int, ybot: int, color: [u8; 4]) -> Seq<Pixel>
    decreases x2 - x1 + 1,
{
    if x1 > x2 {
        Seq::empty()
    } else {
        rect_rows(x1, x2 - 1, ytop, ybot, color) + seq![
            cell_pixel(x2, ytop, color),
            cell_pixel(x2, ybot, color),
        ]
    }
}

/// The left and right columns of a rectangle outline, corners excluded:
/// two pixels per row between ya and yb inclusive.
pub open spec fn rect_cols(xl: int, xr: int, ya: int, yb: int, color: [u8; 4]) -> Seq<Pixel>
    decreases yb - ya + 1,
{
    if ya > yb {
        Seq::empty()
    } else {
        rect_cols(xl, xr, ya, yb - 1, color) + seq![
            cell_pixel(xl, yb, color),
            cell_pixel(xr, yb, color),
        ]
    }
}

/// The pixels a rectangle outline produces: full top and bottom rows,
/// then the side columns without their corner cells.
pub open spec fn rect_pixels_spec(a: Point, b: Point, color: [u8; 4]) -> Seq<Pixel> {
    let ax = cell_coord(a.x as int);
    let bx = cell_coord(b.x as int);
    let ay = cell_coord(a.y as int);
    let by = cell_coord(b.y as int);
    let x1 = if ax <= bx {
        ax
    } else {
        bx
    };
    let x2 = if ax <= bx {
        bx
    } else {
        ax
    };
    let y1 = if ay <= by {
        ay
    } else {
        by
    };
    let y2 = if ay <= by {
        by
    } else {
        ay
    };
    rect_rows(x1, x2, y1, y2, color) + rect_cols(x1, x2, y1 + 1, y2 - 1, color)
}

/// Every pixel of one filled column is a cell pixel of that column.
proof fn lemma_col_cells_elems(xc: int, y1: int, y2: int, color: [u8; 4], i: int)
    requires
        0 <= i < col_cells(xc, y1, y2, color).len(),
    ensures
        exists|y: int|
            #![auto]
            y1 <= y <= y2 && col_cells(xc, y1, y2, color)[i] == cell_pixel(xc, y, color),
    decreases y2 - y1 + 1,
{
    let whole = col_cells(xc, y1, y2, color);
    let prefix = col_cells(xc, y1, y2 - 1, color);
    if i < prefix.len() {
        lemma_col_cells_elems(xc, y1, y2 - 1, color, i);
        let y = choose|y: int|
            #![auto]
            y1 <= y <= y2 - 1 && prefix[i] == cell_pixel(xc, y, color);
        assert(whole[i] == cell_pixel(xc, y, color));
    } else {
        assert(whole[i] == cell_pixel(xc, y2, color));
    }
}

/// Every pixel of a fill is a cell pixel inside the rectangle.
proof fn lemma_fill_cells_elems(x1: int, x2: int, y1: int, y2: int, color: [u8; 4], i: int)
    requires
        0 <= i < fill_cells(x1, x2, y1, y2, color).len(),
    ensures
        exists|x: int, y: int|
            #![auto]
            x1 <= x <= x2 && y1 <= y <= y2 && fill_cells(x1, x2, y1, y2, color)[i] == cell_pixel(
                x,
                y,
                color,
            ),
    decreases x2 - x1 + 1,
{
    let whole = fill_cells(x1, x2, y1, y2, color);
    let prefix = fill_cells(x1, x2 - 1, y1, y2, color);
    if i < prefix.len() {
        lemma_fill_cells_elems(x1, x2 - 1, y1, y2, color, i);
        let (x, y) = choose|x: int, y: int|
            #![auto]
            x1 <= x <= x2 - 1 && y1 <= y <= y2 && prefix[i] == cell_pixel(x, y, color);
        assert(whole[i] == cell_pixel(x, y, color));
    } else {
        lemma_col_cells_elems(x2, y1, y2, color, i - prefix.len());
        let y = choose|y: int|
            #![auto]
            y1 <= y <= y2 && col_cells(x2, y1, y2, color)[i - prefix.len()] == cell_pixel(
                x2,
                y,
                color,
            );
        assert(whole[i] == cell_pixel(x2, y, color));
    }
}

/// One filled column covers every row of its span.
proof fn lemma_col_cells_covers(xc: int, y1: int, y2: int, color: [u8; 4], y: int)
    requires
        y1 <= y <= y2,
    ensures
        exists|i: int|
            0 <= i < col_cells(xc, y1, y2, color).len() && col_cells(xc, y1, y2, color)[i]
                == cell_pixel(xc, y, color),
    decreases y2 - y1 + 1,
{
    let whole = col_cells(xc, y1, y2, color);
    let prefix = col_cells(xc, y1, y2 - 1, color);
    if y == y2 {
        assert(whole[prefix.len() as int] == cell_pixel(xc, y, color));
    } else {
        lemma_col_cells_covers(xc, y1, y2 - 1, color, y);
        let i = choose|i: int| 0 <= i < prefix.len() && prefix[i] == cell_pixel(xc, y, color);
        assert(whole[i] == cell_pixel(xc, y, color));
    }
}

/// A fill covers every cell of the rectangle.
proof fn lemma_fill_cells_covers(x1: int, x2: int, y1: int, y2: int, color: [u8; 4], x: int, y: int)
    requires
        x1 <= x <= x2,
        y1 <= y <= y2,
    ensures
        exists|i: int|
            0 <= i < fill_cells(x1, x2, y1, y2, color).len() && fill_cells(x1, x2, y1, y2, color)[i]
                == cell_pixel(x, y, color),
    decreases x2 - x1 + 1,
{
    let whole = fill_cells(x1, x2, y1, y2, color);
    let prefix = fill_cells(x1, x2 - 1, y1, y2, color);
    if x == x2 {
        lemma_col_cells_covers(x2, y1, y2, color, y);
        let i = choose|i: int|
            0 <= i < col_cells(x2, y1, y2, color).len() && col_cells(x2, y1, y2, color)[i]
                == cell_pixel(x, y, color);
        assert(whole[prefix.len() + i] == cell_pixel(x, y, color));
    } else {
        lemma_fill_cells_covers(x1, x2 - 1, y1, y2, color, x, y);
        let i = choose|i: int| 0 <= i < prefix.len() && prefix[i] == cell_pixel(x, y, color);
        assert(whole[i] == cell_pixel(x, y, color));
    }
}

/// Law: a fill touches exactly the cells of its rectangle. A cell's
/// pixel occurs among the commands a fill produces if and only if the
/// cell lies inside the closed, canonicalized cell rectangle spanned by
/// the two corner points; a rectangle outline, by contrast, touches only
/// the border.
pub proof fn lemma_fill_is_rectangle(a: Point, b: Point, color: [u8; 4], x: int, y: int)
    requires
        MIN_CELL <= x <= MAX_CELL,
        MIN_CELL <= y <= MAX_CELL,
    ensures
        ({
            let ax = cell_coord(a.x as int);
            let bx = cell_coord(b.x as int);
            let ay = cell_coord(a.y as int);
            let by = cell_coord(b.y as int);
            let x1 = if ax <= bx {
                ax
            } else {
                bx
            };
            let x2 = if ax <= bx {
                bx
            } else {
                ax
            };
            let y1 = if ay <= by {
                ay
            } else {
                by
            };
            let y2 = if ay <= by {
                by
            } else {
                ay
            };
            (exists|i: int|
                0 <= i < fill_pixels_spec(a, b, color).len() && fill_pixels_spec(a, b, color)[i]
                    == cell_pixel(x, y, color)) <==> (x1 <= x <= x2 && y1 <= y <= y2)
        }),
{
    crate::shared::lemma_cell_coord_bounds(a.x);
    crate::shared::lemma_cell_coord_bounds(a.y);
    crate::shared::lemma_cell_coord_bounds(b.x);
    crate::shared::lemma_cell_coord_bounds(b.y);
    let ax = cell_coord(a.x as int);
    let bx = cell_coord(b.x as int);
    let ay = cell_coord(a.y as int);
    let by = cell_coord(b.y as int);
    let x1 = if ax <= bx {
        ax
    } else {
        bx
    };
    let x2 = if ax <= bx {
        bx
    } else {
        ax
    };
    let y1 = if ay <= by {
        ay
    } else {
        by
    };
    let y2 = if ay <= by {
        by
    } else {
        ay
    };
    let whole = fill_pixels_spec(a, b, color);
    if exists|i: int| 0 <= i < whole.len() && whole[i] == cell_pixel(x, y, color) {
        let i = choose|i: int| 0 <= i < whole.len() && whole[i] == cell_pixel(x, y, color);
        lemma_fill_cells_elems(x1, x2, y1, y2, color, i);
        let (xw, yw) = choose|xw: int, yw: int|
            #![auto]
            x1 <= xw <= x2 && y1 <= yw <= y2 && whole[i] == cell_pixel(xw, yw, color);
        lemma_cell_pixel_injective(x, y, xw, yw, color);
    }
    if x1 <= x <= x2 && y1 <= y <= y2 {
        lemma_fill_cells_covers(x1, x2, y1, y2, color, x, y);
    }
}

/// Every pixel among the outline's rows is a cell pixel of the top or
/// bottom row.
proof fn lemma_rect_rows_elems(x1: int, x2: int, yt: int, yb: int, color: [u8; 4], i: int)
    requires
        0 <= i < rect_rows(x1, x2, yt, yb, color).len(),
    ensures
        exists|x: int|
            #![auto]
            x1 <= x <= x2 && (rect_rows(x1, x2, yt, yb, color)[i] == cell_pixel(x, yt, color)
                || rect_rows(x1, x2, yt, yb, color)[i] == cell_pixel(x, yb, color)),
    decreases x2 - x1 + 1,
{
    let whole = rect_rows(x1, x2, yt, yb, color);
    let prefix = rect_rows(x1, x2 - 1, yt, yb, color);
    if i < prefix.len() {
        lemma_rect_rows_elems(x1, x2 - 1, yt, yb, color, i);
        let x = choose|x: int|
            #![auto]
            x1 <= x <= x2 - 1 && (prefix[i] == cell_pixel(x, yt, color) || prefix[i] == cell_pixel(
                x,
                yb,
                color,
            ));
        assert(whole[i] == prefix[i]);
        assert(whole[i] == cell_pixel(x, yt, color) || whole[i] == cell_pixel(x, yb, color));
    } else {
        assert(whole[i] == cell_pixel(x2, yt, color) || whole[i] == cell_pixel(x2, yb, color));
    }
}

/// Every pixel among the outline's side columns is a cell pixel of the
/// left or right column, on a row within the given span.
proof fn lemma_rect_cols_elems(xl: int, xr: int, ya: int, yb: int, color: [u8; 4], i: int)
    requires
        0 <= i < rect_cols(xl, xr, ya, yb, color).len(),
    ensures
        exists|y: int|
            #![auto]
            ya <= y <= yb && (rect_cols(xl, xr, ya, yb, color)[i] == cell_pixel(xl, y, color)
                || rect_cols(xl, xr, ya, yb, color)[i] == cell_pixel(xr, y, color)),
    decreases yb - ya + 1,
{
    let whole = rect_cols(xl, xr, ya, yb, color);
    let prefix = rect_cols(xl, xr, ya, yb - 1, color);
    if i < prefix.len() {
        lemma_rect_cols_elems(xl, xr, ya, yb - 1, color, i);
        let y = choose|y: int|
            #![auto]
            ya <= y <= yb - 1 && (prefix[i] == cell_pixel(xl, y, color) || prefix[i] == cell_pixel(
                xr,
                y,
                color,
            ));
        assert(whole[i] == prefix[i]);
        assert(whole[i] == cell_pixel(xl, y, color) || whole[i] == cell_pixel(xr, y, color));
    } else {
        assert(whole[i] == cell_pixel(xl, yb, color) || whole[i] == cell_pixel(xr, yb, color));
    }
}

/// The outline's rows cover every column of the top and bottom rows.
proof fn lemma_rect_rows_covers(x1: int, x2: int, yt: int, yb: int, color: [u8; 4], x: int)
    requires
        x1 <= x <= x2,
    ensures
        exists|i: int|
            0 <= i < rect_rows(x1, x2, yt, yb, color).len() && rect_rows(x1, x2, yt, yb, color)[i]
                == cell_pixel(x, yt, color),
        exists|i: int|
            0 <= i < rect_rows(x1, x2, yt, yb, color).len() && rect_rows(x1, x2, yt, yb, color)[i]
                == cell_pixel(x, yb, color),
    decreases x2 - x1 + 1,
{
    let whole = rect_rows(x1, x2, yt, yb, color);
    let prefix = rect_rows(x1, x2 - 1, yt, yb, color);
    if x == x2 {
        assert(whole[prefix.len() as int] == cell_pixel(x, yt, color));
        assert(whole[prefix.len() as int + 1] == cell_pixel(x, yb, color));
    } else {
        lemma_rect_rows_covers(x1, x2 - 1, yt, yb, color, x);
        let it = choose|i: int|
            0 <= i < prefix.len() && prefix[i] == cell_pixel(x, yt, color);
        let ib = choose|i: int|
            0 <= i < prefix.len() && prefix[i] == cell_pixel(x, yb, color);
        assert(whole[it] == cell_pixel(x, yt, color));
        assert(whole[ib] == cell_pixel(x, yb, color));
    }
}

/// The outline's side columns cover every row of the given span.
proof fn lemma_rect_cols_covers(xl: int, xr: int, ya: int, yb: int, color: [u8; 4], y: int)
    requires
        ya <= y <= yb,
    ensures
        exists|i: int|
            0 <= i < rect_cols(xl, xr, ya, yb, color).len() && rect_cols(xl, xr, ya, yb, color)[i]
                == cell_pixel(xl, y, color),
        exists|i: int|
            0 <= i < rect_cols(xl, xr, ya, yb, color).len() && rect_cols(xl, xr, ya, yb, color)[i]
                == cell_pixel(xr, y, color),
    decreases yb - ya + 1,
{
    let whole = rect_cols(xl, xr, ya, yb, color);
    let prefix = rect_cols(xl, xr, ya, yb - 1, color);
    if y == yb {
        assert(whole[prefix.len() as int] == cell_pixel(xl, y, color));
        assert(whole[prefix.len() as int + 1] == cell_pixel(xr, y, color));
    } else {
        lemma_rect_cols_covers(xl, xr, ya, yb - 1, color, y);
        let il = choose|i: int|
            0 <= i < prefix.len() && prefix[i] == cell_pixel(xl, y, color);
        let ir = choose|i: int|
            0 <= i < prefix.len() && prefix[i] == cell_pixel(xr, y, color);
        assert(whole[il] == cell_pixel(xl, y, color));
        assert(whole[ir] == cell_pixel(xr, y, color));
    }
}

/// Law: a rectangle draws only its border. A cell's pixel occurs among
/// the commands the outline produces if and only if the cell lies on
/// the border of the canonicalized cell rectangle spanned by the two
/// corner points: on the top or bottom row, or on the left or right
/// column between them. Interior cells are never touched.
pub proof fn lemma_rectangle_is_border(a: Point, b: Point, color: [u8; 4], x: int, y: int)
    requires
        MIN_CELL <= x <= MAX_CELL,
        MIN_CELL <= y <= MAX_CELL,
    ensures
        ({
            let ax = cell_coord(a.x as int);
            let bx = cell_coord(b.x as int);
            let ay = cell_coord(a.y as int);
            let by = cell_coord(b.y as int);
            let x1 = if ax <= bx {
                ax
            } else {
                bx
            };
            let x2 = if ax <= bx {
                bx
            } else {
                ax
            };
            let y1 = if ay <= by {
                ay
            } else {
                by
            };
            let y2 = if ay <= by {
                by
            } else {
                ay
            };
            (exists|i: int|
                0 <= i < rect_pixels_spec(a, b, color).len() && rect_pixels_spec(a, b, color)[i]
                    == cell_pixel(x, y, color)) <==> (x1 <= x <= x2 && y1 <= y <= y2 && (x == x1
                || x == x2 || y == y1 || y == y2))
        }),
{
    crate::shared::lemma_cell_coord_bounds(a.x);
    crate::shared::lemma_cell_coord_bounds(a.y);
    crate::shared::lemma_cell_coord_bounds(b.x);
    crate::shared::lemma_cell_coord_bounds(b.y);
    let ax = cell_coord(a.x as int);
    let bx = cell_coord(b.x as int);
    let ay = cell_coord(a.y as int);
    let by = cell_coord(b.y as int);
    let x1 = if ax <= bx {
        ax
    } else {
        bx
    };
    let x2 = if ax <= bx {
        bx
    } else {
        ax
    };
    let y1 = if ay <= by {
        ay
    } else {
        by
    };
    let y2 = if ay <= by {
        by
    } else {
        ay
    };
    let rows = rect_rows(x1, x2, y1, y2, color);
    let cols = rect_cols(x1, x2, y1 + 1, y2 - 1, color);
    let whole = rect_pixels_spec(a, b, color);
    assert(whole == rows + cols);
    if exists|i: int| 0 <= i < whole.len() && whole[i] == cell_pixel(x, y, color) {
        let i = choose|i: int| 0 <= i < whole.len() && whole[i] == cell_pixel(x, y, color);
        if i < rows.len() {
            lemma_rect_rows_elems(x1, x2, y1, y2, color, i);
            let xw = choose|xw: int|
                #![auto]
                x1 <= xw <= x2 && (rows[i] == cell_pixel(xw, y1, color) || rows[i] == cell_pixel(
                    xw,
                    y2,
                    color,
                ));
            assert(whole[i] == rows[i]);
            if rows[i] == cell_pixel(xw, y1, color) {
                lemma_cell_pixel_injective(x, y, xw, y1, color);
            } else {
                lemma_cell_pixel_injective(x, y, xw, y2, color);
            }
        } else {
            lemma_rect_cols_elems(x1, x2, y1 + 1, y2 - 1, color, i - rows.len());
            let yw = choose|yw: int|
                #![auto]
                y1 + 1 <= yw <= y2 - 1 && (cols[i - rows.len()] == cell_pixel(x1, yw, color)
                    || cols[i - rows.len()] == cell_pixel(x2, yw, color));
            assert(whole[i] == cols[i - rows.len()]);
            if cols[i - rows.len()] == cell_pixel(x1, yw, color) {
                lemma_cell_pixel_injective(x, y, x1, yw, color);
            } else {
                lemma_cell_pixel_injective(x, y, x2, yw, color);
            }
        }
    }
    if x1 <= x <= x2 && y1 <= y <= y2 && (x == x1 || x == x2 || y == y1 || y == y2) {
        if y == y1 || y == y2 {
            lemma_rect_rows_covers(x1, x2, y1, y2, color, x);
            let i = choose|i: int| 0 <= i < rows.len() && rows[i] == cell_pixel(x, y, color);
            assert(whole[i] == cell_pixel(x, y, color));
        } else {
            lemma_rect_cols_covers(x1, x2, y1 + 1, y2 - 1, color, y);
            let i = choose|i: int| 0 <= i < cols.len() && cols[i] == cell_pixel(x, y, color);
            assert(whole[rows.len() + i] == cell_pixel(x, y, color));
        }
    }
}

/// Cell pixels of distinct in-range cells are distinct.
proof fn lemma_cell_pixel_injective(x: int, y: int, xo: int, yo: int, color: [u8; 4])
    requires
        MIN_CELL <= x <= MAX_CELL,
        MIN_CELL <= y <= MAX_CELL,
        MIN_CELL <= xo <= MAX_CELL,
        MIN_CELL <= yo <= MAX_CELL,
        cell_pixel(x, y, color) == cell_pixel(xo, yo, color),
    ensures
        x == xo,
        y == yo,
{
    assert(cell_pixel(x, y, color).point == cell_pixel(xo, yo, color).point);
    assert(x * FP_ONE == xo * FP_ONE && y * FP_ONE == yo * FP_ONE);
    assert(x == xo && y == yo) by (nonlinear_arith)
        requires
            x * FP_ONE == xo * FP_ONE,
            y * FP_ONE == yo * FP_ONE,
            FP_ONE == 65536,
    ;
}

/// The display model at the start of an initialization cycle: the
/// framebuffer rebuilt to the current size and zeroed and the pixel
/// queue cleared, everything else carried over.
pub open spec fn reset_model(m: DisplayModel) -> DisplayModel {
    DisplayModel { buffer: zero_seq(m.display_size.area() * 4), pixels: Seq::empty(), ..m }
}

/// A framebuffer resized to n bytes: truncated, or extended with zeros.
pub open spec fn resize_zero(buf: Seq<u8>, n: int) -> Seq<u8> {
    if n <= buf.len() {
        buf.subrange(0, n)
    } else {
        buf + zero_seq(n - buf.len())
    }
}

/// The effect of one logic command on the display model. Object and
/// camera mutations clamp positions into bounds; oversize camera or
/// display requests and out-of-range or malformed object writes leave
/// the state unchanged.
#[verifier::opaque]
pub open spec fn logic_step(m: DisplayModel, c: LogicCall) -> DisplayModel {
    match c {
        LogicCall::InitObject(key, o) => {
            if key < m.objects.len() && o.sprite.wf() {
                DisplayModel {
                    objects: m.objects.update(key as int, o),
                    objects_max_index: if key > m.objects_max_index {
                        key as int
                    } else {
                        m.objects_max_index
                    },
                    ..m
                }
            } else {
                m
            }
        },
        LogicCall::SetObject(key, p) => {
            if key < m.objects.len() {
                let o = m.objects[key as int];
                DisplayModel {
                    objects: m.objects.update(
                        key as int,
                        Object { point: clamp_into(p, m.display_size, o.sprite.size), ..o },
                    ),
                    ..m
                }
            } else {
                m
            }
        },
        LogicCall::MoveObject(key, dir, amount) => {
            if key < m.objects.len() {
                let o = m.objects[key as int];
                let moved = nudge_spec(o.point, dir, amount as int);
                DisplayModel {
                    objects: m.objects.update(
                        key as int,
                        Object { point: clamp_into(moved, m.display_size, o.sprite.size), ..o },
                    ),
                    ..m
                }
            } else {
                m
            }
        },
        LogicCall::SetCamera(key, size, p) => {
            let k = camera_slot(key);
            let cam = m.cameras[k];
            let nsize = if size.fits_spec(m.display_size) {
                size
            } else {
                cam.camera_size
            };
            DisplayModel {
                cameras: m.cameras.update(
                    k,
                    Camera { point: clamp_into(p, m.display_size, nsize), camera_size: nsize },
                ),
                ..m
            }
        },
        LogicCall::MoveCamera(key, dir, amount) => {
            let k = camera_slot(key);
            let cam = m.cameras[k];
            let moved = nudge_spec(cam.point, dir, amount as int);
            DisplayModel {
                cameras: m.cameras.update(
                    k,
                    Camera {
                        point: clamp_into(moved, m.display_size, cam.camera_size),
                        camera_size: cam.camera_size,
                    },
                ),
                ..m
            }
        },
        LogicCall::SetOutputCamera(opt) => {
            DisplayModel {
                current_camera: match opt {
                    Some(key) => Some(if key < 15 {
                        key
                    } else {
                        15usize
                    }),
                    None => None,
                },
                ..m
            }
        },
        LogicCall::SetDisplaySize(size) => {
            if valid_size(size) {
                DisplayModel {
                    display_size: size,
                    buffer: resize_zero(m.buffer, size.area() * 4),
                    ..m
                }
            } else {
                m
            }
        },
        LogicCall::PixelAt(p, color) => {
            DisplayModel {
                pixels: m.pixels.push(with_color_spec(plus_spec(p, m.position), color)),
                ..m
            }
        },
        LogicCall::DeleteAt(p) => {
            DisplayModel {
                pixels: m.pixels.push(
                    Pixel {
                        point: plus_spec(p, m.position),
                        color: [0u8, 0u8, 0u8, 255u8],
                        translucent: false,
                    },
                ),
                ..m
            }
        },
        LogicCall::FillRange(p1, p2, color) => {
            DisplayModel {
                pixels: m.pixels + fill_pixels_spec(
                    plus_spec(p1, m.position),
                    plus_spec(p2, m.position),
                    color,
                ),
                ..m
            }
        },
        LogicCall::DelRange(p1, p2) => {
            DisplayModel {
                pixels: m.pixels + fill_pixels_spec(
                    plus_spec(p1, m.position),
                    plus_spec(p2, m.position),
                    [0u8, 0u8, 0u8, 255u8],
                ),
                ..m
            }
        },
        LogicCall::Rectangle(p1, p2, color) => {
            DisplayModel {
                pixels: m.pixels + rect_pixels_spec(
                    plus_spec(p1, m.position),
                    plus_spec(p2, m.position),
                    color,
                ),
                ..m
            }
        },
    }
}

/// The display model after the first n logic commands, in queue order.
pub open spec fn logic_fold(m: DisplayModel, calls: Seq<LogicCall>, n: int) -> DisplayModel
    decreases n,
{
    if n <= 0 {
        m
    } else {
        logic_step(logic_fold(m, calls, n - 1), calls[n - 1])
    }
}

/// The effect of one draw command on the display model.
#[verifier::opaque]
pub open spec fn draw_step(m: DisplayModel, c: DrawCall) -> DisplayModel {
    match c {
        DrawCall::ClearDisplay => DisplayModel { buffer: zero_seq(m.buffer.len() as int), ..m },
        DrawCall::Move(p) => DisplayModel { position: plus_spec(m.position, p), ..m },
        DrawCall::DrawObject(id) => {
            if id < m.objects.len() && m.objects[id as int].sprite.size.fits_spec(m.display_size) {
                DisplayModel { draw_queue: m.draw_queue.push(id), ..m }
            } else {
                m
            }
        },
        DrawCall::DrawPixels => DisplayModel {
            buffer: write_pixels_spec(m.buffer, m.display_size, m.pixels, m.pixels.len() as int),
            pixels: Seq::empty(),
            ..m
        },
    }
}

/// The display model after the first n draw commands, in queue order.
pub open spec fn draw_fold(m: DisplayModel, calls: Seq<DrawCall>, n: int) -> DisplayModel
    decreases n,
{
    if n <= 0 {
        m
    } else {
        draw_step(draw_fold(m, calls, n - 1), calls[n - 1])
    }
}

/// The framebuffer after blitting the first n queued objects: each
/// queued object that is flagged for drawing and fits the display is
/// blitted; the rest are skipped.
pub open spec fn blit_fold(
    buffer: Seq<u8>,
    size: Size,
    objects: Seq<Object>,
    queue: Seq<usize>,
    n: int,
) -> Seq<u8>
    decreases n,
{
    if n <= 0 {
        buffer
    } else {
        let b = blit_fold(buffer, size, objects, queue, n - 1);
        let id = queue[n - 1];
        if id < objects.len() && objects[id as int].needs_draw && object_fits(
            objects[id as int],
            size,
        ) {
            blit_object_spec(b, objects[id as int].sprite, object_base(objects[id as int], size), size.width * 4)
        } else {
            b
        }
    }
}

/// The model after a full render pass over the given draw commands:
/// every draw command applied in order, then every queued object
/// blitted, the queue left empty.
pub open spec fn render_spec(m: DisplayModel, calls: Seq<DrawCall>) -> DisplayModel {
    let m1 = draw_fold(m, calls, calls.len() as int);
    DisplayModel {
        buffer: blit_fold(
            m1.buffer,
            m1.display_size,
            m1.objects,
            m1.draw_queue,
            m1.draw_queue.len() as int,
        ),
        draw_queue: Seq::empty(),
        ..m1
    }
}

/// What the presentation step leaves in the backbuffer: the active
/// camera's rectangle when it fits the display, the whole framebuffer
/// when no camera is active, and the backbuffer untouched when the
/// active camera no longer fits (an oversize request is skipped).
pub open spec fn present_spec(m: DisplayModel, r_size: Size, r_frame: Seq<u8>) -> (Size, Seq<u8>) {
    match m.current_camera {
        Some(c) => {
            let cam = m.cameras[c as int];
            if camera_cell_x(cam) + cam.camera_size.width <= m.display_size.width && camera_cell_y(
                cam,
            ) + cam.camera_size.height <= m.display_size.height {
                (cam.camera_size, capture_spec(m.buffer, m.display_size, cam))
            } else {
                (r_size, r_frame)
            }
        },
        None => (m.display_size, m.buffer.subrange(0, m.display_size.area() * 4)),
    }
}

/// Owns the logical framebuffer, the object arena, the camera table and
/// the per-frame command queues, and interprets the two command
/// vocabularies.
pub struct Display {
    pub position: Point,
    pub display_size: Size,
    /// The screen whose logic currently drives this display.
    pub screen: Screen,
    pub next_screen: Option<Screen>,
    pub current_camera: Option<usize>,
    /// Tells the engine to reinitialize the screen before the next
    /// cycle.
    pub needs_init: bool,
    pub cameras: Vec<Camera>,
    pub objects: Vec<Object>,
    pub objects_max_index: usize,
    pub object_draw_buffer: Vec<usize>,
    pub draw_buffer: Vec<DrawCall>,
    pub logic_buffer: Vec<LogicCall>,
    pub display_buffer: Vec<u8>,
    pub pixel_buffer: Vec<Pixel>,
}

impl Display {
    /// Structural well-formedness: full tables, a framebuffer of exactly
    /// one RGBA quadruple per pixel, well-formed arena sprites and
    /// premultiplied queued pixels.
    pub open spec fn wf(self) -> bool {
        &&& self.cameras@.len() == CAMERA_COUNT
        &&& self.objects@.len() == OBJECT_CAPACITY
        &&& valid_size(self.display_size)
        &&& self.display_buffer@.len() == self.display_size.area() * 4
        &&& forall|i: int|
            0 <= i < self.objects@.len() ==> (#[trigger] self.objects@[i]).sprite.wf()
        &&& forall|i: int| 0 <= i < self.pixel_buffer@.len() ==> (#[trigger] self.pixel_buffer@[i]).wf()
        &&& match self.current_camera {
            Some(c) => c < CAMERA_COUNT,
            None => true,
        }
        &&& forall|i: int|
            0 <= i < self.object_draw_buffer@.len() ==> #[trigger] self.object_draw_buffer@[i]
                < OBJECT_CAPACITY
    }

    /// The mathematical state this display represents.
    pub open spec fn model(self) -> DisplayModel {
        DisplayModel {
            position: self.position,
            display_size: self.display_size,
            current_camera: self.current_camera,
            cameras: self.cameras@,
            objects: self.objects@,
            objects_max_index: self.objects_max_index as int,
            buffer: self.display_buffer@,
            pixels: self.pixel_buffer@,
            draw_queue: self.object_draw_buffer@,
        }
    }

    /// The queued logic commands, in arrival order.
    pub open spec fn logic_queue(self) -> Seq<LogicCall> {
        self.logic_buffer@
    }

    /// The queued draw commands, in arrival order.
    pub open spec fn draw_queue(self) -> Seq<DrawCall> {
        self.draw_buffer@
    }

    /// Builds a display at a position with a screen and an initial
    /// logical size; the framebuffer starts zeroed, the arena holds
    /// default objects, the camera table default cameras.
    #[verifier::loop_isolation(false)]
    pub fn new_at(position: Point, screen: Screen, display_size: Size) -> (d: Display)
        requires
            valid_size(display_size),
        ensures
            d.wf(),
            d.model().position == position,
            d.model().display_size == display_size,
            d.model().current_camera is None,
            d.model().objects_max_index == 0,
            d.model().buffer == zero_seq(display_size.area() * 4),
            d.model().pixels == Seq::<Pixel>::empty(),
            d.model().draw_queue == Seq::<usize>::empty(),
            d.logic_queue() == Seq::<LogicCall>::empty(),
            d.draw_queue() == Seq::<DrawCall>::empty(),
            d.screen == screen,
            d.needs_init == true,
            d.next_screen is None,
            forall|i: int|
                0 <= i < CAMERA_COUNT ==> d.model().cameras[i] == (Camera {
                    point: Point { x: 0i64, y: 0i64 },
                    camera_size: Size { width: 1usize, height: 1usize },
                }),
            forall|i: int|
                0 <= i < OBJECT_CAPACITY ==> (#[trigger] d.model().objects[i]).point == (Point {
                    x: 0i64,
                    y: 0i64,
                }) && !d.model().objects[i].needs_draw
                    && d.model().objects[i].sprite.size == (Size { width: 0usize, height: 0usize }),
    {
        proof {
            crate::renderer::lemma_buffer_len_fits(display_size);
        }
        let mut cameras: Vec<Camera> = Vec::new();
        let mut i: usize = 0;
        while i < CAMERA_COUNT
            invariant
                i <= CAMERA_COUNT,
                cameras@.len() == i,
                forall|j: int|
                    0 <= j < i ==> cameras@[j] == (Camera {
                        point: Point { x: 0i64, y: 0i64 },
                        camera_size: Size { width: 1usize, height: 1usize },
                    }),
            decreases CAMERA_COUNT - i,
        {
            cameras.push(Camera::default());
            i = i + 1;
        }
        let mut objects: Vec<Object> = Vec::new();
        let mut i: usize = 0;
        while i < OBJECT_CAPACITY
            invariant
                i <= OBJECT_CAPACITY,
                objects@.len() == i,
                forall|j: int|
                    0 <= j < i ==> (#[trigger] objects@[j]).point == (Point { x: 0i64, y: 0i64 })
                        && !objects@[j].needs_draw && objects@[j].sprite.size == (Size {
                        width: 0usize,
                        height: 0usize,
                    }) && objects@[j].sprite.wf(),
            decreases OBJECT_CAPACITY - i,
        {
            objects.push(Object::default());
            i = i + 1;
        }
        let n: usize = display_size.pixels() * BPP;
        Display {
            position,
            display_size,
            screen,
            next_screen: None,
            current_camera: None,
            needs_init: true,
            cameras,
            objects,
            objects_max_index: 0,
            object_draw_buffer: Vec::new(),
            draw_buffer: Vec::new(),
            logic_buffer: Vec::new(),
            display_buffer: zero_vec(n),
            pixel_buffer: Vec::new(),
        }
    }

    /// Queues one logic command for the next logic phase.
    pub fn push_logic(&mut self, c: LogicCall)
        ensures
            final(self).logic_queue() == old(self).logic_queue().push(c),
            final(self).model() == old(self).model(),
            final(self).draw_queue() == old(self).draw_queue(),
            final(self).screen == old(self).screen,
            final(self).needs_init == old(self).needs_init,
            final(self).wf() == old(self).wf(),
    {
        self.logic_buffer.push(c);
    }

    /// Queues one draw command for the next render phase.
    pub fn push_draw(&mut self, c: DrawCall)
        ensures
            final(self).draw_queue() == old(self).draw_queue().push(c),
            final(self).model() == old(self).model(),
            final(self).logic_queue() == old(self).logic_queue(),
            final(self).screen == old(self).screen,
            final(self).needs_init == old(self).needs_init,
            final(self).wf() == old(self).wf(),
    {
        self.draw_buffer.push(c);
    }

    /// The display's logical size.
    pub fn size(&self) -> (s: Size)
        ensures
            s == self.model().display_size,
    {
        self.display_size
    }

    /// The display's logical position offset.
    pub fn position(&self) -> (p: Point)
        ensures
            p == self.model().position,
    {
        self.position
    }

    /// The camera table slot the renderer presents from, if any.
    pub fn current_camera(&self) -> (c: Option<usize>)
        ensures
            c == self.model().current_camera,
    {
        self.current_camera
    }

    /// Reads one camera table slot.
    pub fn camera(&self, key: usize) -> (c: Camera)
        requires
            self.wf(),
            key < CAMERA_COUNT,
        ensures
            c == self.model().cameras[key as int],
    {
        self.cameras[key]
    }

    /// Reads one object arena slot.
    pub fn object_at(&self, key: usize) -> (o: &Object)
        requires
            self.wf(),
            key < OBJECT_CAPACITY,
        ensures
            o == self.model().objects[key as int],
    {
        &self.objects[key]
    }

    /// The highest arena key written so far.
    pub fn objects_max_index(&self) -> (n: usize)
        ensures
            n == self.model().objects_max_index,
    {
        self.objects_max_index
    }

    /// The logical framebuffer bytes.
    pub fn buffer(&self) -> (b: &Vec<u8>)
        ensures
            b@ == self.model().buffer,
    {
        &self.display_buffer
    }

    /// The queued pixel commands.
    pub fn pixel_queue(&self) -> (p: &Vec<Pixel>)
        ensures
            p@ == self.model().pixels,
    {
        &self.pixel_buffer
    }

    /// Applies one logic command to the display state; its exact effect
    /// is `logic_step`.
    pub fn apply_logic_call(&mut self, c: LogicCall)
        requires
            old(self).wf(),
        ensures
            final(self).wf(),
            final(self).model() == logic_step(old(self).model(), c),
            final(self).logic_queue() == old(self).logic_queue(),
            final(self).draw_queue() == old(self).draw_queue(),
            final(self).screen == old(self).screen,
            final(self).next_screen == old(self).next_screen,
            final(self).needs_init == old(self).needs_init,
    {
        proof {
            reveal(logic_step);
        }
        match c {
            LogicCall::InitObject(key, object) => {
                if key < OBJECT_CAPACITY {
                    if object.sprite.well_formed() {
                        if key > self.objects_max_index {
                            self.objects_max_index = key;
                        }
                        self.objects.set(key, object);
                    }
                }
            },
            LogicCall::SetObject(key, point) => {
                if key < OBJECT_CAPACITY {
                    let item = self.objects[key].sprite.size;
                    let cp = clamp_point_into(point, self.display_size, item);
                    let o = &mut self.objects[key];
                    o.point = cp;
                    proof {
                        assert(self.objects@ =~= old(self).objects@.update(
                            key as int,
                            Object {
                                point: clamp_into(
                                    point,
                                    old(self).display_size,
                                    old(self).objects@[key as int].sprite.size,
                                ),
                                ..old(self).objects@[key as int]
                            },
                        ));
                    }
                }
            },
            LogicCall::MoveObject(key, dir, amount) => {
                if key < OBJECT_CAPACITY {
                    let item = self.objects[key].sprite.size;
                    let moved = self.objects[key].point.nudge(dir, amount);
                    let cp = clamp_point_into(moved, self.display_size, item);
                    let o = &mut self.objects[key];
                    o.point = cp;
                    proof {
                        assert(self.objects@ =~= old(self).objects@.update(
                            key as int,
                            Object {
                                point: clamp_into(
                                    nudge_spec(
                                        old(self).objects@[key as int].point,
                                        dir,
                                        amount as int,
                                    ),
                                    old(self).display_size,
                                    old(self).objects@[key as int].sprite.size,
                                ),
                                ..old(self).objects@[key as int]
                            },
                        ));
                    }
                }
            },
            LogicCall::SetCamera(key, size, point) => {
                let k: usize = if key < 15 {
                    key
                } else {
                    15
                };
                let cam = self.cameras[k];
                let nsize = if size.fits_within(&self.display_size) {
                    size
                } else {
                    cam.camera_size
                };
                let np = clamp_point_into(point, self.display_size, nsize);
                self.cameras.set(k, Camera { point: np, camera_size: nsize });
            },
            LogicCall::MoveCamera(key, dir, amount) => {
                let k: usize = if key < 15 {
                    key
                } else {
                    15
                };
                let cam = self.cameras[k];
                let moved = cam.point.nudge(dir, amount);
                let np = clamp_point_into(moved, self.display_size, cam.camera_size);
                self.cameras.set(k, Camera { point: np, camera_size: cam.camera_size });
            },
            LogicCall::SetOutputCamera(opt) => {
                match opt {
                    Some(key) => {
                        self.current_camera = Some(
                            if key < 15 {
                                key
                            } else {
                                15
                            },
                        );
                    },
                    None => {
                        self.current_camera = None;
                    },
                }
            },
            LogicCall::SetDisplaySize(size) => {
                if size.width <= 0x7FFF && size.height <= 0x7FFF {
                    proof {
                        crate::renderer::lemma_buffer_len_fits(size);
                    }
                    self.display_size = size;
                    let n: usize = size.pixels() * BPP;
                    resize_with_zeros(&mut self.display_buffer, n);
                }
            },
            LogicCall::PixelAt(point, color) => {
                let p = point.plus(self.position);
                self.pixel_buffer.push(Pixel::with_color(p, color));
            },
            LogicCall::DeleteAt(point) => {
                let p = point.plus(self.position);
                self.pixel_buffer.push(
                    Pixel { point: p, color: [0, 0, 0, 255], translucent: false },
                );
            },
            LogicCall::FillRange(point, point2, color) => {
                let a = point.plus(self.position);
                let b = point2.plus(self.position);
                fill_range(&mut self.pixel_buffer, a, b, color);
            },
            LogicCall::DelRange(point, point2) => {
                let a = point.plus(self.position);
                let b = point2.plus(self.position);
                fill_range(&mut self.pixel_buffer, a, b, [0, 0, 0, 255]);
            },
            LogicCall::Rectangle(point, point2, color) => {
                let a = point.plus(self.position);
                let b = point2.plus(self.position);
                draw_rect(&mut self.pixel_buffer, a, b, color);
            },
        }
    }

    /// Drains the logic command queue, applying every command in queue
    /// order exactly once; the resulting state is the fold of
    /// `logic_step` over the queue.
    #[verifier::rlimit(100)]
    pub fn run_logic_calls(&mut self)
        requires
            old(self).wf(),
        ensures
            final(self).wf(),
            final(self).model() == logic_fold(
                old(self).model(),
                old(self).logic_queue(),
                old(self).logic_queue().len() as int,
            ),
            final(self).logic_queue() == Seq::<LogicCall>::empty(),
            final(self).draw_queue() == old(self).draw_queue(),
            final(self).screen == old(self).screen,
            final(self).next_screen == old(self).next_screen,
            final(self).needs_init == old(self).needs_init,
    {
        let ghost calls: Seq<LogicCall> = self.logic_buffer@;
        let total: usize = self.logic_buffer.len();
        let ghost n: int = total as int;
        let mut i: usize = 0;
        while self.logic_buffer.len() > 0
            invariant
                self.wf(),
                0 <= i <= n,
                n == calls.len() as int,
                n <= usize::MAX,
                self.logic_buffer@ =~= calls.subrange(i as int, n),
                self.model() == logic_fold(old(self).model(), calls, i as int),
                self.draw_buffer@ == old(self).draw_buffer@,
                self.screen == old(self).screen,
                self.next_screen == old(self).next_screen,
                self.needs_init == old(self).needs_init,
            decreases self.logic_buffer@.len(),
        {
            let c = self.logic_buffer.remove(0);
            proof {
                assert(c == calls[i as int]);
            }
            self.apply_logic_call(c);
            proof {
                assert(self.logic_buffer@ =~= calls.subrange(i as int + 1, n));
            }
            i = i + 1;
        }
        proof {
            assert(i == n);
            assert(self.logic_buffer@ =~= Seq::<LogicCall>::empty());
        }
    }

    /// Runs one tick of game logic: the screen's update enqueues logic
    /// commands, a kill request stops everything, a returned screen is
    /// staged for the next initialization, and the queue is drained in
    /// order. Returns true when the program must stop.
    pub fn logic_update(&mut self, input_state: &InputState) -> (kill: bool)
        requires
            old(self).wf(),
        ensures
            final(self).wf(),
            kill == update_kill(old(self).screen, *input_state),
            kill ==> final(self).model() == old(self).model(),
            !kill ==> final(self).model() == logic_fold(
                old(self).model(),
                old(self).logic_queue() + update_calls(old(self).screen, *input_state),
                (old(self).logic_queue() + update_calls(old(self).screen, *input_state)).len()
                    as int,
            ),
            !kill ==> final(self).logic_queue() == Seq::<LogicCall>::empty(),
            kill ==> final(self).logic_queue() == old(self).logic_queue() + update_calls(
                old(self).screen,
                *input_state,
            ),
            final(self).draw_queue() == Seq::<DrawCall>::empty(),
            !kill ==> final(self).needs_init == (update_transitions(old(self).screen, *input_state)
                || old(self).needs_init),
            same_screen_kind(final(self).screen, old(self).screen),
            old(self).screen matches Screen::Menu(_) ==> final(self).screen == old(self).screen,
            kill ==> final(self).next_screen == old(self).next_screen,
            !kill && update_transitions(old(self).screen, *input_state) ==> (({
                let after = *final(self);
                after.next_screen matches Some(staged) && transition_target(
                    old(self).screen,
                    staged,
                )
            })),
            !kill && !update_transitions(old(self).screen, *input_state) ==> final(self).next_screen
                == old(self).next_screen,
    {
        self.draw_buffer.clear();
        let (return_screen, kill) = self.screen.update(&mut self.logic_buffer, input_state);
        if kill {
            return true;
        }
        if return_screen.is_some() {
            self.next_screen = return_screen;
            self.needs_init = true;
        }
        self.run_logic_calls();
        false
    }
}

impl Display {
    /// Applies one draw command; its exact effect is `draw_step`.
    pub fn apply_draw_call(&mut self, renderer: &mut RenderHook, c: DrawCall)
        requires
            old(self).wf(),
        ensures
            final(self).wf(),
            final(self).model() == draw_step(old(self).model(), c),
            final(self).logic_queue() == old(self).logic_queue(),
            final(self).draw_queue() == old(self).draw_queue(),
            final(self).screen == old(self).screen,
            final(self).next_screen == old(self).next_screen,
            final(self).needs_init == old(self).needs_init,
            *final(renderer) == *old(renderer),
    {
        proof {
            reveal(draw_step);
        }
        match c {
            DrawCall::ClearDisplay => {
                let n: usize = self.display_buffer.len();
                self.display_buffer.clear();
                resize_with_zeros(&mut self.display_buffer, n);
                proof {
                    assert(self.display_buffer@ =~= zero_seq(
                        old(self).model().buffer.len() as int,
                    ));
                }
            },
            DrawCall::Move(point) => {
                self.position = self.position.plus(point);
            },
            DrawCall::DrawObject(id) => {
                if id < OBJECT_CAPACITY {
                    if self.objects[id].sprite.size.fits_within(&self.display_size) {
                        self.object_draw_buffer.push(id);
                    }
                }
            },
            DrawCall::DrawPixels => {
                renderer.buffer_pixels(
                    &mut self.display_buffer,
                    self.display_size,
                    &mut self.pixel_buffer,
                );
                proof {
                    crate::renderer::lemma_write_pixels_len(
                        old(self).model().buffer,
                        old(self).display_size,
                        old(self).model().pixels,
                        old(self).model().pixels.len() as int,
                    );
                    assert(self.pixel_buffer@ =~= Seq::<Pixel>::empty());
                }
            },
        }
    }

    /// Drains the draw command queue, applying every command in queue
    /// order exactly once; the resulting state is the fold of
    /// `draw_step` over the queue.
    #[verifier::rlimit(100)]
    pub fn run_draw_calls(&mut self, renderer: &mut RenderHook)
        requires
            old(self).wf(),
        ensures
            final(self).wf(),
            final(self).model() == draw_fold(
                old(self).model(),
                old(self).draw_queue(),
                old(self).draw_queue().len() as int,
            ),
            final(self).draw_queue() == Seq::<DrawCall>::empty(),
            final(self).logic_queue() == old(self).logic_queue(),
            final(self).screen == old(self).screen,
            final(self).next_screen == old(self).next_screen,
            final(self).needs_init == old(self).needs_init,
            *final(renderer) == *old(renderer),
    {
        let ghost calls: Seq<DrawCall> = self.draw_buffer@;
        let total: usize = self.draw_buffer.len();
        let ghost n: int = total as int;
        let mut i: usize = 0;
        while self.draw_buffer.len() > 0
            invariant
                self.wf(),
                0 <= i <= n,
                n == calls.len() as int,
                n <= usize::MAX,
                self.draw_buffer@ =~= calls.subrange(i as int, n),
                self.model() == draw_fold(old(self).model(), calls, i as int),
                self.logic_buffer@ == old(self).logic_buffer@,
                self.screen == old(self).screen,
                self.next_screen == old(self).next_screen,
                self.needs_init == old(self).needs_init,
                *renderer == *old(renderer),
            decreases self.draw_buffer@.len(),
        {
            let c = self.draw_buffer.remove(0);
            proof {
                assert(c == calls[i as int]);
            }
            self.apply_draw_call(renderer, c);
            proof {
                assert(self.draw_buffer@ =~= calls.subrange(i as int + 1, n));
            }
            i = i + 1;
        }
        proof {
            assert(i == n);
            assert(self.draw_buffer@ =~= Seq::<DrawCall>::empty());
        }
    }

    /// Drains the object draw queue: every queued object that is flagged
    /// for drawing and fits the display is blitted into the framebuffer;
    /// the rest are skipped.
    #[verifier::rlimit(100)]
    pub fn draw_objects(&mut self, renderer: &mut RenderHook)
        requires
            old(self).wf(),
        ensures
            final(self).wf(),
            final(self).model() == (DisplayModel {
                buffer: blit_fold(
                    old(self).model().buffer,
                    old(self).model().display_size,
                    old(self).model().objects,
                    old(self).model().draw_queue,
                    old(self).model().draw_queue.len() as int,
                ),
                draw_queue: Seq::<usize>::empty(),
                ..old(self).model()
            }),
            final(self).logic_queue() == old(self).logic_queue(),
            final(self).draw_queue() == old(self).draw_queue(),
            final(self).screen == old(self).screen,
            final(self).next_screen == old(self).next_screen,
            final(self).needs_init == old(self).needs_init,
            *final(renderer) == *old(renderer),
    {
        let n: usize = self.object_draw_buffer.len();
        let mut i: usize = 0;
        while i < n
            invariant
                self.wf(),
                i <= n,
                n == self.object_draw_buffer@.len(),
                self.object_draw_buffer@ == old(self).object_draw_buffer@,
                self.display_size == old(self).display_size,
                self.objects@ == old(self).objects@,
                self.position == old(self).position,
                self.current_camera == old(self).current_camera,
                self.cameras@ == old(self).cameras@,
                self.objects_max_index == old(self).objects_max_index,
                self.pixel_buffer@ == old(self).pixel_buffer@,
                self.draw_buffer@ == old(self).draw_buffer@,
                self.logic_buffer@ == old(self).logic_buffer@,
                self.screen == old(self).screen,
                self.next_screen == old(self).next_screen,
                self.needs_init == old(self).needs_init,
                *renderer == *old(renderer),
                self.display_buffer@ == blit_fold(
                    old(self).display_buffer@,
                    self.display_size,
                    self.objects@,
                    self.object_draw_buffer@,
                    i as int,
                ),
            decreases n - i,
        {
            let id: usize = self.object_draw_buffer[i];
            if id < OBJECT_CAPACITY {
                let needs = self.objects[id].needs_draw;
                if needs {
                    let cxi: i64 = self.objects[id].point.cell_x();
                    let cyi: i64 = self.objects[id].point.cell_y();
                    let x: i64 = if cxi < 0 {
                        0
                    } else {
                        cxi
                    };
                    let y: i64 = if cyi < 0 {
                        0
                    } else {
                        cyi
                    };
                    proof {
                        crate::shared::lemma_cell_coord_bounds(self.objects@[id as int].point.x);
                        crate::shared::lemma_cell_coord_bounds(self.objects@[id as int].point.y);
                    }
                    let fits: bool = x + (self.objects[id].sprite.size.width as i64)
                        <= (self.display_size.width as i64) && y + (
                    self.objects[id].sprite.size.height as i64) <= (self.display_size.height
                        as i64);
                    proof {
                        assert(fits == object_fits(self.objects@[id as int], self.display_size));
                    }
                    if fits {
                        renderer.buffer_object(
                            &self.objects[id],
                            &mut self.display_buffer,
                            &self.display_size,
                        );
                    }
                }
            }
            i = i + 1;
        }
        self.object_draw_buffer.clear();
    }

    /// Hands the frame to the backbuffer: captures the active camera's
    /// rectangle when it fits the display (resizing the backbuffer
    /// first), copies the whole framebuffer when no camera is active,
    /// and skips an oversize camera.
    pub fn present(&self, renderer: &mut RenderHook)
        requires
            self.wf(),
            old(renderer).wf(),
        ensures
            final(renderer).wf(),
            (final(renderer).render_size, final(renderer).frame@) == present_spec(
                self.model(),
                old(renderer).render_size,
                old(renderer).frame@,
            ),
    {
        match self.current_camera {
            Some(c) => {
                let cam: Camera = self.cameras[c];
                let cxi: i64 = cam.point.cell_x();
                let cyi: i64 = cam.point.cell_y();
                let x: i64 = if cxi < 0 {
                    0
                } else {
                    cxi
                };
                let y: i64 = if cyi < 0 {
                    0
                } else {
                    cyi
                };
                proof {
                    crate::shared::lemma_cell_coord_bounds(cam.point.x);
                    crate::shared::lemma_cell_coord_bounds(cam.point.y);
                }
                let fits: bool = cam.camera_size.width <= self.display_size.width
                    && cam.camera_size.height <= self.display_size.height && x <= ((
                self.display_size.width - cam.camera_size.width) as i64) && y <= ((
                self.display_size.height - cam.camera_size.height) as i64);
                proof {
                    assert(fits == (camera_cell_x(cam) + cam.camera_size.width
                        <= self.display_size.width && camera_cell_y(cam) + cam.camera_size.height
                        <= self.display_size.height));
                }
                if fits {
                    if !(cam.camera_size == renderer.render_size) {
                        renderer.change_size(cam.camera_size);
                    }
                    renderer.capture(&self.display_buffer, &self.display_size, &cam);
                }
            },
            None => {
                if !(self.display_size == renderer.render_size) {
                    renderer.change_size(self.display_size);
                }
                renderer.copy_buffer(&self.display_buffer);
            },
        }
    }

    /// Runs the render phase: the screen queues its draw commands, the
    /// queue is drained in order, the queued objects are blitted, and
    /// the finished frame is presented through the active camera or as a
    /// full copy.
    pub fn render(&mut self, renderer: &mut RenderHook)
        requires
            old(self).wf(),
            old(renderer).wf(),
        ensures
            final(self).wf(),
            final(renderer).wf(),
            final(self).model() == render_spec(
                old(self).model(),
                old(self).draw_queue() + draw_calls_spec(old(self).screen),
            ),
            final(self).draw_queue() == Seq::<DrawCall>::empty(),
            final(self).logic_queue() == old(self).logic_queue(),
            final(self).screen == old(self).screen,
            final(self).next_screen == old(self).next_screen,
            final(self).needs_init == old(self).needs_init,
            (final(renderer).render_size, final(renderer).frame@) == present_spec(
                final(self).model(),
                old(renderer).render_size,
                old(renderer).frame@,
            ),
    {
        self.screen.draw(&mut self.draw_buffer);
        self.run_draw_calls(renderer);
        self.draw_objects(renderer);
        self.present(renderer);
    }

    /// Reinitializes the display for a (possibly new) screen: clears the
    /// frame queues, zeroes the framebuffer, swaps in a pending screen,
    /// lets it queue its initial scene, then runs one full logic and
    /// render cycle. The final state is exactly an init cycle from the
    /// reset model: some batch of queued logic commands folded in, the
    /// screen's draw commands rendered, and the frame presented.
    pub fn init_display(&mut self, input_state: &InputState, renderer: &mut RenderHook)
        requires
            old(self).wf(),
            old(renderer).wf(),
        ensures
            final(self).wf(),
            final(renderer).wf(),
            final(self).needs_init == false,
            final(self).draw_queue() == Seq::<DrawCall>::empty(),
            final(self).model().draw_queue == Seq::<usize>::empty(),
            old(self).next_screen matches Some(ns) ==> same_screen_kind(final(self).screen, ns),
            old(self).next_screen is None ==> same_screen_kind(
                final(self).screen,
                old(self).screen,
            ),
            (final(renderer).render_size, final(renderer).frame@) == present_spec(
                final(self).model(),
                old(renderer).render_size,
                old(renderer).frame@,
            ),
            ({
                let installed = match old(self).next_screen {
                    Some(ns) => ns,
                    None => old(self).screen,
                };
                let after = *final(self);
                let killed = update_kill(installed, *input_state);
                &&& (!killed ==> after.logic_queue() == Seq::<LogicCall>::empty())
                &&& (!killed ==> exists|emitted: Seq<LogicCall>|
                    #![auto]
                    after.model() == render_spec(
                        logic_fold(reset_model(old(self).model()), emitted, emitted.len() as int),
                        draw_calls_spec(after.screen),
                    ))
                &&& (killed ==> after.model() == render_spec(
                    reset_model(old(self).model()),
                    draw_calls_spec(after.screen),
                ))
                &&& (killed || !update_transitions(installed, *input_state)
                    ==> after.next_screen is None)
                &&& (!killed && update_transitions(installed, *input_state) ==> (
                after.next_screen matches Some(staged) && transition_target(installed, staged)))
            }),
    {
        proof {
            crate::renderer::lemma_buffer_len_fits(self.display_size);
        }
        self.draw_buffer.clear();
        let n: usize = self.display_size.pixels() * BPP;
        self.display_buffer = zero_vec(n);
        self.pixel_buffer.clear();
        if self.next_screen.is_some() {
            let next = self.next_screen.take().unwrap();
            self.screen = next;
        }
        proof {
            assert(self.pixel_buffer@ =~= Seq::<Pixel>::empty());
            assert(self.model() == reset_model(old(self).model()));
        }
        self.screen.init_screen(&mut self.draw_buffer, &mut self.logic_buffer);
        let ghost queued: Seq<LogicCall> = self.logic_buffer@;
        let ghost installed: Screen = self.screen;
        let ghost reset: DisplayModel = self.model();
        let killed = self.logic_update(input_state);
        proof {
            assert(killed == update_kill(installed, *input_state));
        }
        let ghost presented: DisplayModel = self.model();
        self.render(renderer);
        proof {
            let emitted = queued + update_calls(installed, *input_state);
            assert(Seq::<DrawCall>::empty() + draw_calls_spec(self.screen) =~= draw_calls_spec(
                self.screen,
            ));
            if !killed {
                assert(self.model() == render_spec(
                    logic_fold(reset_model(old(self).model()), emitted, emitted.len() as int),
                    draw_calls_spec(self.screen),
                ));
            } else {
                assert(self.model() == render_spec(
                    reset_model(old(self).model()),
                    draw_calls_spec(self.screen),
                ));
            }
        }
        self.needs_init = false;
    }
}

/// Law: a SetObject or MoveObject command leaves the object's position
/// inside the display: each coordinate lands in
/// [0, (display extent - sprite extent) in fixed-point units], the upper
/// bound saturating at zero when the sprite is larger than the display.
pub proof fn lemma_object_position_clamped(m: DisplayModel, c: LogicCall, key: usize)
    requires
        key < m.objects.len(),
        (c matches LogicCall::SetObject(k, _) && k == key) || (c matches LogicCall::MoveObject(
            k,
            _,
            _,
        ) && k == key),
    ensures
        0 <= logic_step(m, c).objects[key as int].point.x <= avail_span(
            m.display_size.width as nat,
            m.objects[key as int].sprite.size.width as nat,
        ) * FP_ONE,
        0 <= logic_step(m, c).objects[key as int].point.y <= avail_span(
            m.display_size.height as nat,
            m.objects[key as int].sprite.size.height as nat,
        ) * FP_ONE,
        m.display_size.width >= m.objects[key as int].sprite.size.width ==> logic_step(
            m,
            c,
        ).objects[key as int].point.x <= (m.display_size.width
            - m.objects[key as int].sprite.size.width) * FP_ONE,
        m.display_size.height >= m.objects[key as int].sprite.size.height ==> logic_step(
            m,
            c,
        ).objects[key as int].point.y <= (m.display_size.height
            - m.objects[key as int].sprite.size.height) * FP_ONE,
{
    reveal(logic_step);
}

/// Law: an oversize camera request is rejected. When the requested size
/// exceeds the display in either dimension, the addressed slot keeps its
/// prior camera size; the requested position is still applied, clamped
/// for the retained size.
pub proof fn lemma_oversize_camera_rejected(m: DisplayModel, key: usize, size: Size, p: Point)
    requires
        !size.fits_spec(m.display_size),
        camera_slot(key) < m.cameras.len(),
    ensures
        logic_step(m, LogicCall::SetCamera(key, size, p)).cameras[camera_slot(key)].camera_size
            == m.cameras[camera_slot(key)].camera_size,
        logic_step(m, LogicCall::SetCamera(key, size, p)).cameras[camera_slot(key)].point
            == clamp_into(p, m.display_size, m.cameras[camera_slot(key)].camera_size),
{
    reveal(logic_step);
}

/// Exec clamp of a point so an item of the given size stays inside the
/// container.
pub fn clamp_point_into(p: Point, container: Size, item: Size) -> (r: Point)
    requires
        valid_size(container),
    ensures
        r == clamp_into(p, container, item),
{
    let availw: usize = if container.width >= item.width {
        container.width - item.width
    } else {
        0
    };
    let availh: usize = if container.height >= item.height {
        container.height - item.height
    } else {
        0
    };
    let hix: i64 = (availw as i64) * FP_ONE;
    let hiy: i64 = (availh as i64) * FP_ONE;
    let x: i64 = if p.x < 0 {
        0
    } else if p.x > hix {
        hix
    } else {
        p.x
    };
    let y: i64 = if p.y < 0 {
        0
    } else if p.y > hiy {
        hiy
    } else {
        p.y
    };
    Point { x, y }
}

/// Grows or truncates a byte buffer to n bytes, zero-filling new space.
pub fn resize_with_zeros(buf: &mut Vec<u8>, n: usize)
    ensures
        final(buf)@ == resize_zero(old(buf)@, n as int),
{
    if n <= buf.len() {
        buf.truncate(n);
    } else {
        let mut i: usize = buf.len();
        while i < n
            invariant
                old(buf)@.len() <= i <= n,
                buf@.len() == i,
                buf@ == resize_zero(old(buf)@, i as int),
            decreases n - i,
        {
            buf.push(0);
            i = i + 1;
            proof {
                assert(buf@ =~= resize_zero(old(buf)@, i as int));
            }
        }
    }
    proof {
        assert(buf@ =~= resize_zero(old(buf)@, n as int));
    }
}

/// Queues one pixel command for every cell of the closed rectangle
/// between the two corner points, column by column.
#[verifier::loop_isolation(false)]
pub fn fill_range(buf: &mut Vec<Pixel>, point: Point, point2: Point, color: [u8; 4])
    ensures
        final(buf)@ == old(buf)@ + fill_pixels_spec(point, point2, color),
        forall|i: int|
            old(buf)@.len() <= i < final(buf)@.len() ==> (#[trigger] final(buf)@[i]).wf(),
{
    proof {
        crate::shared::lemma_cell_coord_bounds(point.x);
        crate::shared::lemma_cell_coord_bounds(point.y);
        crate::shared::lemma_cell_coord_bounds(point2.x);
        crate::shared::lemma_cell_coord_bounds(point2.y);
    }
    let ax = point.cell_x();
    let bx = point2.cell_x();
    let ay = point.cell_y();
    let by = point2.cell_y();
    let x1: i64 = if ax <= bx {
        ax
    } else {
        bx
    };
    let x2: i64 = if ax <= bx {
        bx
    } else {
        ax
    };
    let y1: i64 = if ay <= by {
        ay
    } else {
        by
    };
    let y2: i64 = if ay <= by {
        by
    } else {
        ay
    };
    let mut x: i64 = x1;
    while x <= x2
        invariant
            x1 <= x <= x2 + 1 || (x == x1 && x1 > x2),
            buf@ == old(buf)@ + fill_cells(x1 as int, x - 1, y1 as int, y2 as int, color),
            forall|i: int| old(buf)@.len() <= i < buf@.len() ==> (#[trigger] buf@[i]).wf(),
        decreases x2 - x + 1,
    {
        let mut y: i64 = y1;
        let ghost before_col: Seq<Pixel> = buf@;
        while y <= y2
            invariant
                y1 <= y <= y2 + 1 || (y == y1 && y1 > y2),
                x1 <= x <= x2,
                buf@ == before_col + col_cells(x as int, y1 as int, y - 1, color),
                forall|i: int| old(buf)@.len() <= i < buf@.len() ==> (#[trigger] buf@[i]).wf(),
                before_col.len() >= old(buf)@.len(),
                forall|i: int|
                    old(buf)@.len() <= i < before_col.len() ==> (#[trigger] before_col[i]).wf(),
            decreases y2 - y + 1,
        {
            buf.push(Pixel::with_color(Point::at(x, y), color));
            proof {
                assert(buf@ =~= before_col + col_cells(x as int, y1 as int, y as int, color));
            }
            y = y + 1;
        }
        proof {
            assert(buf@ =~= old(buf)@ + fill_cells(x1 as int, x as int, y1 as int, y2 as int, color));
        }
        x = x + 1;
    }
    proof {
        assert(buf@ =~= old(buf)@ + fill_pixels_spec(point, point2, color));
    }
}

/// Queues pixel commands for the four border edges of the rectangle
/// between the two corner points: full top and bottom rows, then the
/// side columns without corners.
#[verifier::loop_isolation(false)]
pub fn draw_rect(buf: &mut Vec<Pixel>, point: Point, point2: Point, color: [u8; 4])
    ensures
        final(buf)@ == old(buf)@ + rect_pixels_spec(point, point2, color),
        forall|i: int|
            old(buf)@.len() <= i < final(buf)@.len() ==> (#[trigger] final(buf)@[i]).wf(),
{
    proof {
        crate::shared::lemma_cell_coord_bounds(point.x);
        crate::shared::lemma_cell_coord_bounds(point.y);
        crate::shared::lemma_cell_coord_bounds(point2.x);
        crate::shared::lemma_cell_coord_bounds(point2.y);
    }
    let ax = point.cell_x();
    let bx = point2.cell_x();
    let ay = point.cell_y();
    let by = point2.cell_y();
    let x1: i64 = if ax <= bx {
        ax
    } else {
        bx
    };
    let x2: i64 = if ax <= bx {
        bx
    } else {
        ax
    };
    let y1: i64 = if ay <= by {
        ay
    } else {
        by
    };
    let y2: i64 = if ay <= by {
        by
    } else {
        ay
    };
    let mut x: i64 = x1;
    while x <= x2
        invariant
            x1 <= x <= x2 + 1 || (x == x1 && x1 > x2),
            buf@ == old(buf)@ + rect_rows(x1 as int, x - 1, y1 as int, y2 as int, color),
            forall|i: int| old(buf)@.len() <= i < buf@.len() ==> (#[trigger] buf@[i]).wf(),
        decreases x2 - x + 1,
    {
        buf.push(Pixel::with_color(Point::at(x, y1), color));
        buf.push(Pixel::with_color(Point::at(x, y2), color));
        proof {
            assert(buf@ =~= old(buf)@ + rect_rows(x1 as int, x as int, y1 as int, y2 as int, color));
        }
        x = x + 1;
    }
    let ghost after_rows: Seq<Pixel> = buf@;
    let mut y: i64 = y1 + 1;
    while y <= y2 - 1
        invariant
            y1 + 1 <= y <= y2 || (y == y1 + 1 && y1 + 1 > y2 - 1),
            buf@ == after_rows + rect_cols(x1 as int, x2 as int, y1 as int + 1, y - 1, color),
            after_rows.len() >= old(buf)@.len(),
            forall|i: int| old(buf)@.len() <= i < buf@.len() ==> (#[trigger] buf@[i]).wf(),
            forall|i: int|
                old(buf)@.len() <= i < after_rows.len() ==> (#[trigger] after_rows[i]).wf(),
        decreases y2 - y,
    {
        buf.push(Pixel::with_color(Point::at(x1, y), color));
        buf.push(Pixel::with_color(Point::at(x2, y), color));
        proof {
            assert(buf@ =~= after_rows + rect_cols(
                x1 as int,
                x2 as int,
                y1 as int + 1,
                y as int,
                color,
            ));
        }
        y = y + 1;
    }
    proof {
        assert(buf@ =~= old(buf)@ + rect_pixels_spec(point, point2, color));
    }
}

} // verus!
