//! A fixed-size pixel surface and the primitives that paint on it.
//!
//! The surface is a row-major buffer of `VIZ_W * VIZ_H` pixels; the pixel in column `x` and row
//! `y` lives at index `y * VIZ_W + x`, and row 0 is the top of the picture.

use vstd::prelude::*;

verus! {

/// Width of the surface, in pixels.
pub const VIZ_W: usize = 500;

/// Height of the surface, in pixels.
pub const VIZ_H: usize = 500;

/// Whether `(x, y)` names a pixel of the surface.
pub open spec fn in_frame(x: int, y: int) -> bool {
    0 <= x < VIZ_W && 0 <= y < VIZ_H
}

/// Column of the pixel stored at index `i`.
pub open spec fn column_of(i: int) -> int {
    i % (VIZ_W as int)
}

/// Row of the pixel stored at index `i`.
pub open spec fn row_of(i: int) -> int {
    i / (VIZ_W as int)
}

/// The buffer `pixels` after every pixel of the surface that `shape` selects got `color`.
pub open spec fn painted(pixels: Seq<u32>, shape: spec_fn(int, int) -> bool, color: u32) -> Seq<
    u32,
> {
    Seq::new(
        pixels.len(),
        |i: int|
            if i < VIZ_W * VIZ_H && shape(column_of(i), row_of(i)) {
                color
            } else {
                pixels[i]
            },
    )
}

/// Sets every element of the buffer to `color`.
pub fn clear_buffer(buf: &mut [u32], color: u32)
    ensures
        final(buf)@ == Seq::new(old(buf)@.len(), |i: int| color),
{
    let n = buf.len();
    let mut i: usize = 0;
    while i < n
        invariant
            n == buf@.len(),
            buf@.len() == old(buf)@.len(),
            i <= n,
            forall|j: int| 0 <= j < i ==> buf@[j] == color,
        decreases n - i,
    {
        buf[i] = color;
        i += 1;
    }
}

/// The buffer after `plot`: the pixel `(x, y)` takes `color` when it lies on the surface, and
/// nothing changes when it does not.
pub open spec fn plotted(pixels: Seq<u32>, x: int, y: int, color: u32) -> Seq<u32> {
    if in_frame(x, y) {
        pixels.update(y * VIZ_W + x, color)
    } else {
        pixels
    }
}

/// Paints one pixel, ignoring coordinates that fall outside the surface.
pub fn plot(x: i32, y: i32, color: u32, buffer: &mut [u32])
    requires
        old(buffer)@.len() >= VIZ_W * VIZ_H,
    ensures
        final(buffer)@ == plotted(old(buffer)@, x as int, y as int, color),
{
    if x < 0 || y < 0 {
        return ;
    }
    let x = x as usize;
    let y = y as usize;
    if x >= VIZ_W || y >= VIZ_H {
        return ;
    }
    buffer[y * VIZ_W + x] = color;
}

/// The grid step that `draw_grid` uses for a requested spacing: a spacing of 0 counts as 1.
pub open spec fn grid_step(spacing: usize) -> int {
    if spacing == 0 {
        1
    } else {
        spacing as int
    }
}

/// Whether `c` is a multiple of `step`.
#[verifier::opaque]
pub open spec fn multiple_of(step: int, c: int) -> bool {
    c % step == 0
}

/// Whether `(x, y)` lies on a grid line: its column or its row is a multiple of the step.
pub open spec fn on_grid(step: int, x: int, y: int) -> bool {
    multiple_of(step, x) || multiple_of(step, y)
}

proof fn lemma_pixel_coords(i: int)
    ensures
        i == row_of(i) * VIZ_W + column_of(i),
        0 <= column_of(i) < VIZ_W,
{
}

proof fn lemma_next_multiple(step: int, base: int)
    requires
        step > 0,
        multiple_of(step, base),
    ensures
        multiple_of(step, base + step),
        forall|c: int| base < c < base + step ==> !multiple_of(step, c),
{
    reveal(multiple_of);
    vstd::arithmetic::div_mod::lemma_mod_add_multiples_vanish(base, step);
    assert forall|c: int| base < c < base + step implies !multiple_of(step, c) by {
        vstd::arithmetic::div_mod::lemma_fundamental_div_mod(base, step);
        vstd::arithmetic::div_mod::lemma_mod_multiples_vanish(base / step, c - base, step);
        assert(c == step * (base / step) + (c - base));
        vstd::arithmetic::div_mod::lemma_small_mod((c - base) as nat, step as nat);
    }
}

/// Paints column `x` of the surface from row 0 down to the last row.
fn draw_column(buf: &mut [u32], x: usize, color: u32)
    requires
        old(buf)@.len() >= VIZ_W * VIZ_H,
        x < VIZ_W,
    ensures
        final(buf)@ == painted(old(buf)@, |c: int, r: int| c == x, color),
{
    let mut y: usize = 0;
    while y < VIZ_H
        invariant
            x < VIZ_W,
            y <= VIZ_H,
            buf@.len() == old(buf)@.len(),
            buf@.len() >= VIZ_W * VIZ_H,
            forall|i: int|
                0 <= i < buf@.len() ==> #[trigger] buf@[i] == if column_of(i) == x && row_of(i) < y {
                    color
                } else {
                    old(buf)@[i]
                },
        decreases VIZ_H - y,
    {
        buf[y * VIZ_W + x] = color;
        y += 1;
    }
    proof {
        assert forall|i: int| 0 <= i < buf@.len() implies #[trigger] buf@[i] == painted(
            old(buf)@,
            |c: int, r: int| c == x,
            color,
        )[i] by {
            lemma_pixel_coords(i);
        }
        assert(buf@ =~= painted(old(buf)@, |c: int, r: int| c == x, color));
    }
}

/// Paints row `y` of the surface from column 0 to the last column.
fn draw_row(buf: &mut [u32], y: usize, color: u32)
    requires
        old(buf)@.len() >= VIZ_W * VIZ_H,
        y < VIZ_H,
    ensures
        final(buf)@ == painted(old(buf)@, |c: int, r: int| r == y, color),
{
    let mut x: usize = 0;
    while x < VIZ_W
        invariant
            y < VIZ_H,
            x <= VIZ_W,
            buf@.len() == old(buf)@.len(),
            buf@.len() >= VIZ_W * VIZ_H,
            forall|i: int|
                0 <= i < buf@.len() ==> #[trigger] buf@[i] == if row_of(i) == y && column_of(i) < x {
                    color
                } else {
                    old(buf)@[i]
                },
        decreases VIZ_W - x,
    {
        buf[y * VIZ_W + x] = color;
        x += 1;
    }
    proof {
        assert forall|i: int| 0 <= i < buf@.len() implies #[trigger] buf@[i] == painted(
            old(buf)@,
            |c: int, r: int| r == y,
            color,
        )[i] by {
            lemma_pixel_coords(i);
        }
        assert(buf@ =~= painted(old(buf)@, |c: int, r: int| r == y, color));
    }
}

/// Paints the vertical and horizontal lines of a grid whose lines are `spacing` pixels apart,
/// starting with column 0 and row 0.
pub fn draw_grid(buf: &mut [u32], spacing: usize, color: u32)
    requires
        old(buf)@.len() >= VIZ_W * VIZ_H,
    ensures
        final(buf)@ == painted(
            old(buf)@,
            |x: int, y: int| on_grid(grid_step(spacing), x, y),
            color,
        ),
{
    let step = if spacing == 0 {
        1
    } else {
        spacing
    };
    proof {
        reveal(multiple_of);
        assert(multiple_of(step as int, 0));
    }
    let mut x: usize = 0;
    while x < VIZ_W
        invariant
            step == grid_step(spacing),
            buf@.len() == old(buf)@.len(),
            buf@.len() >= VIZ_W * VIZ_H,
            x >= VIZ_W || multiple_of(step as int, x as int),
            x <= VIZ_W,
            buf@ == painted(
                old(buf)@,
                |c: int, r: int| c < x && multiple_of(step as int, c),
                color,
            ),
        decreases VIZ_W - x,
    {
        draw_column(buf, x, color);
        proof {
            lemma_next_multiple(step as int, x as int);
        }
        let next = if step >= VIZ_W - x {
            VIZ_W
        } else {
            x + step
        };
        proof {
            assert forall|i: int| 0 <= i < buf@.len() implies #[trigger] buf@[i] == painted(
                old(buf)@,
                |c: int, r: int| c < next && multiple_of(step as int, c),
                color,
            )[i] by {
                lemma_pixel_coords(i);
            }
            assert(buf@ =~= painted(
                old(buf)@,
                |c: int, r: int| c < next && multiple_of(step as int, c),
                color,
            ));
        }
        x = next;
    }
    let mut y: usize = 0;
    while y < VIZ_H
        invariant
            step == grid_step(spacing),
            buf@.len() == old(buf)@.len(),
            buf@.len() >= VIZ_W * VIZ_H,
            y >= VIZ_H || multiple_of(step as int, y as int),
            y <= VIZ_H,
            buf@ == painted(
                old(buf)@,
                |c: int, r: int|
                    multiple_of(step as int, c) || (r < y && multiple_of(step as int, r)),
                color,
            ),
        decreases VIZ_H - y,
    {
        draw_row(buf, y, color);
        proof {
            lemma_next_multiple(step as int, y as int);
        }
        let next = if step >= VIZ_H - y {
            VIZ_H
        } else {
            y + step
        };
        proof {
            assert forall|i: int| 0 <= i < buf@.len() implies #[trigger] buf@[i] == painted(
                old(buf)@,
                |c: int, r: int|
                    multiple_of(step as int, c) || (r < next && multiple_of(step as int, r)),
                color,
            )[i] by {
                lemma_pixel_coords(i);
            }
            assert(buf@ =~= painted(
                old(buf)@,
                |c: int, r: int|
                    multiple_of(step as int, c) || (r < next && multiple_of(step as int, r)),
                color,
            ));
        }
        y = next;
    }
    proof {
        assert forall|i: int| 0 <= i < buf@.len() implies #[trigger] buf@[i] == painted(
            old(buf)@,
            |x: int, y: int| on_grid(grid_step(spacing), x, y),
            color,
        )[i] by {
            lemma_pixel_coords(i);
        }
        assert(buf@ =~= painted(
            old(buf)@,
            |x: int, y: int| on_grid(grid_step(spacing), x, y),
            color,
        ));
    }
}

/// Whether `(x, y)` lies on one of the two axes drawn `pad` pixels inside the surface: the
/// bottom axis runs along row `VIZ_H - pad`, the left axis along column `pad`.
pub open spec fn on_axes(pad: int, x: int, y: int) -> bool {
    (y == VIZ_H - pad && pad <= x <= VIZ_W - pad) || (x == pad && pad <= y <= VIZ_H - pad)
}

/// Paints a horizontal axis near the bottom and a vertical axis near the left edge, both `pad`
/// pixels inside the surface.
pub fn draw_axes(buf: &mut [u32], pad: usize, color: u32)
    requires
        old(buf)@.len() >= VIZ_W * VIZ_H,
        1 <= pad <= VIZ_W,
    ensures
        final(buf)@ == painted(old(buf)@, |x: int, y: int| on_axes(pad as int, x, y), color),
{
    let x0 = pad;
    let x1 = VIZ_W - pad;
    let y0 = pad;
    let y1 = VIZ_H - pad;
    let mut x: usize = x0;
    while x <= x1
        invariant
            x0 == pad,
            x1 == VIZ_W - pad,
            y1 == VIZ_H - pad,
            1 <= pad <= VIZ_W,
            x0 <= x,
            x <= x1 + 1 || x == x0,
            buf@.len() == old(buf)@.len(),
            buf@.len() >= VIZ_W * VIZ_H,
            forall|i: int|
                0 <= i < buf@.len() ==> #[trigger] buf@[i] == if row_of(i) == y1 && x0 <= column_of(i) < x {
                    color
                } else {
                    old(buf)@[i]
                },
        decreases x1 + 1 - x,
    {
        buf[y1 * VIZ_W + x] = color;
        x += 1;
    }
    let mut y: usize = y0;
    while y <= y1
        invariant
            x0 == pad,
            y0 == pad,
            x1 == VIZ_W - pad,
            y1 == VIZ_H - pad,
            1 <= pad <= VIZ_W,
            y0 <= y,
            y <= y1 + 1 || y == y0,
            buf@.len() == old(buf)@.len(),
            buf@.len() >= VIZ_W * VIZ_H,
            forall|i: int|
                0 <= i < buf@.len() ==> #[trigger] buf@[i] == if (row_of(i) == y1 && x0 <= column_of(i) <= x1)
                    || (column_of(i) == x0 && y0 <= row_of(i) < y) {
                    color
                } else {
                    old(buf)@[i]
                },
        decreases y1 + 1 - y,
    {
        buf[y * VIZ_W + x0] = color;
        y += 1;
    }
    proof {
        assert forall|i: int| 0 <= i < buf@.len() implies #[trigger] buf@[i] == painted(
            old(buf)@,
            |x: int, y: int| on_axes(pad as int, x, y),
            color,
        )[i] by {
            lemma_pixel_coords(i);
        }
        assert(buf@ =~= painted(old(buf)@, |x: int, y: int| on_axes(pad as int, x, y), color));
    }
}

/// A product of two sizes, held at `usize::MAX` where it would exceed it.
pub open spec fn capped_product(p: int, q: int) -> int {
    if p * q > usize::MAX {
        usize::MAX as int
    } else {
        p * q
    }
}

/// How far right of the left padding sample `i` of `len` stands on a plot `w` pixels wide: the
/// samples are spread evenly, the first at 0 and the last at `w - 1`.
pub open spec fn x_offset(i: int, len: int, w: int) -> int {
    let last_column = if w >= 1 {
        w - 1
    } else {
        0
    };
    let gaps = if len >= 2 {
        len - 1
    } else {
        1
    };
    capped_product(i, last_column) / gaps
}

/// How far below the top padding a sample of magnitude `bits` stands on a plot `h` pixels high
/// whose scale ends at `max_bits`: the largest magnitude stands at the top, 0 at the bottom.
pub open spec fn y_offset(bits: int, max_bits: int, h: int) -> int {
    let last_row = if h >= 1 {
        h - 1
    } else {
        0
    };
    let scale = if max_bits >= 1 {
        max_bits
    } else {
        1
    };
    let height = capped_product(bits, last_row) / scale;
    if height >= last_row {
        0
    } else {
        last_row - height
    }
}

/// A coordinate held inside the surface: `limit - 1` where it would leave it.
pub open spec fn held_below(v: int, limit: int) -> int {
    if v >= limit {
        limit - 1
    } else {
        v
    }
}

fn capped_mul(p: usize, q: usize) -> (r: usize)
    ensures
        r == capped_product(p as int, q as int),
{
    match p.checked_mul(q) {
        Some(v) => v,
        None => usize::MAX,
    }
}

/// Maps sample `i` of `len`, of magnitude `bits` on a scale that ends at `max_bits`, to its
/// pixel on a plot of `w` by `h` pixels that starts `pad` pixels inside the surface.
pub fn point_xy(
    i: usize,
    bits: usize,
    len: usize,
    max_bits: usize,
    w: usize,
    h: usize,
    pad: usize,
) -> (p: (usize, usize))
    requires
        pad + x_offset(i as int, len as int, w as int) <= usize::MAX,
        pad + y_offset(bits as int, max_bits as int, h as int) <= usize::MAX,
    ensures
        p.0 == held_below(pad + x_offset(i as int, len as int, w as int), VIZ_W as int),
        p.1 == held_below(pad + y_offset(bits as int, max_bits as int, h as int), VIZ_H as int),
{
    let last_column = w.saturating_sub(1);
    let gaps = if len >= 2 {
        len - 1
    } else {
        1
    };
    let x = pad + capped_mul(i, last_column) / gaps;
    let last_row = h.saturating_sub(1);
    let scale = if max_bits >= 1 {
        max_bits
    } else {
        1
    };
    let y = pad + last_row.saturating_sub(capped_mul(bits, last_row) / scale);
    let px = if x >= VIZ_W {
        VIZ_W - 1
    } else {
        x
    };
    let py = if y >= VIZ_H {
        VIZ_H - 1
    } else {
        y
    };
    (px, py)
}

/// The largest horizontal or vertical extent of a line that `draw_line` accepts: with a larger
/// one the error term of the line walk would leave the range of `i32`.
pub const LINE_REACH: i32 = 715_827_882;

/// Distance between two coordinates.
pub open spec fn extent(from: int, to: int) -> int {
    if from <= to {
        to - from
    } else {
        from - to
    }
}

/// How many unit steps lead from `from` to `at` when walking in the direction of `to`.
pub open spec fn steps_along(from: int, to: int, at: int) -> int {
    if from < to {
        at - from
    } else {
        from - at
    }
}

/// Twice the signed distance, in units of the line's longer extent, by which the grid point
/// `a` steps along x and `b` steps along y from the start lies off the ideal line whose
/// extents are `dx` and `dy`.
pub open spec fn lean(dx: int, dy: int, a: int, b: int) -> int {
    2 * (dx * b - dy * a)
}

/// Whether the grid point `(a, b)`, counted in steps from the start of a line with extents
/// `dx` and `dy`, is the point nearest to the ideal line at its position along the longer
/// extent. A point halfway between two candidates counts for one of them only.
pub open spec fn nearest_to_line(dx: int, dy: int, a: int, b: int) -> bool {
    &&& 0 <= a <= dx
    &&& 0 <= b <= dy
    &&& if dx >= dy {
        dx == 0 || -dx < lean(dx, dy, a, b) <= dx
    } else {
        -dy <= lean(dx, dy, a, b) < dy
    }
}

/// Whether the pixel `(x, y)` belongs to the rasterized segment from `(x0, y0)` to `(x1, y1)`.
pub open spec fn on_segment(x0: int, y0: int, x1: int, y1: int, x: int, y: int) -> bool {
    nearest_to_line(
        extent(x0, x1),
        extent(y0, y1),
        steps_along(x0, x1, x),
        steps_along(y0, y1, y),
    )
}

/// Position of the grid point `(a, b)` along the longer extent of the line.
spec fn progress(dx: int, dy: int, a: int, b: int) -> int {
    if dx >= dy {
        a
    } else {
        b
    }
}

proof fn lemma_nearest_is_unique(dx: int, dy: int, a: int, b: int, a2: int, b2: int)
    requires
        nearest_to_line(dx, dy, a, b),
        nearest_to_line(dx, dy, a2, b2),
        progress(dx, dy, a, b) == progress(dx, dy, a2, b2),
    ensures
        a == a2,
        b == b2,
{
    if dx >= dy {
        if dx > 0 {
            assert(b == b2) by (nonlinear_arith)
                requires
                    dx > 0,
                    -dx < 2 * (dx * b - dy * a) <= dx,
                    -dx < 2 * (dx * b2 - dy * a) <= dx,
            ;
        }
    } else {
        assert(a == a2) by (nonlinear_arith)
            requires
                dy > 0,
                -dy <= 2 * (dx * b - dy * a) < dy,
                -dy <= 2 * (dx * b - dy * a2) < dy,
        ;
    }
}

proof fn lemma_line_step(dx: int, dy: int, a: int, b: int)
    requires
        0 <= dx,
        0 <= dy,
        nearest_to_line(dx, dy, a, b),
        !(a == dx && b == dy),
    ensures
        ({
            let step_x = lean(dx, dy, a, b) >= dy - 2 * dx;
            let step_y = lean(dx, dy, a, b) <= 2 * dy - dx;
            let a2 = if step_x {
                a + 1
            } else {
                a
            };
            let b2 = if step_y {
                b + 1
            } else {
                b
            };
            &&& nearest_to_line(dx, dy, a2, b2)
            &&& progress(dx, dy, a2, b2) == progress(dx, dy, a, b) + 1
        }),
{
    let l = lean(dx, dy, a, b);
    let step_x = l >= dy - 2 * dx;
    let step_y = l <= 2 * dy - dx;
    let a2 = if step_x {
        a + 1
    } else {
        a
    };
    let b2 = if step_y {
        b + 1
    } else {
        b
    };
    let l2 = lean(dx, dy, a2, b2);
    assert(dx > 0 || dy > 0);
    assert(l2 == l - (if step_x {
        2 * dy
    } else {
        0
    }) + (if step_y {
        2 * dx
    } else {
        0
    })) by (nonlinear_arith)
        requires
            l == 2 * (dx * b - dy * a),
            l2 == 2 * (dx * b2 - dy * a2),
            a2 == if step_x {
                a + 1
            } else {
                a
            },
            b2 == if step_y {
                b + 1
            } else {
                b
            },
    ;
    if dx >= dy {
        assert(step_x);
        assert(-dx < l2 <= dx);
        assert(a < dx) by (nonlinear_arith)
            requires
                dx > 0,
                0 <= a <= dx,
                0 <= b <= dy,
                dy <= dx,
                !(a == dx && b == dy),
                -dx < 2 * (dx * b - dy * a) <= dx,
        ;
        assert(b2 <= dy) by (nonlinear_arith)
            requires
                dx > 0,
                0 <= a2 <= dx,
                0 <= dy,
                -dx < 2 * (dx * b2 - dy * a2) <= dx,
        ;
    } else {
        assert(step_y);
        assert(-dy <= l2 < dy);
        assert(b < dy) by (nonlinear_arith)
            requires
                dy > 0,
                0 <= a <= dx,
                0 <= b <= dy,
                dx < dy,
                !(a == dx && b == dy),
                -dy <= 2 * (dx * b - dy * a) < dy,
        ;
        assert(a2 <= dx) by (nonlinear_arith)
            requires
                dy > 0,
                0 <= b2 <= dy,
                0 <= dx,
                -dy <= 2 * (dx * b2 - dy * a2) < dy,
        ;
    }
}

/// Paints the segment from `(x0, y0)` to `(x1, y1)`, both ends included: one pixel for each
/// position along the longer extent, the one nearest to the ideal line. Pixels that fall
/// outside the surface are left out.
pub fn draw_line(x0: i32, y0: i32, x1: i32, y1: i32, color: u32, buffer: &mut [u32])
    requires
        old(buffer)@.len() >= VIZ_W * VIZ_H,
        extent(x0 as int, x1 as int) <= LINE_REACH,
        extent(y0 as int, y1 as int) <= LINE_REACH,
    ensures
        final(buffer)@ == painted(
            old(buffer)@,
            |x: int, y: int| on_segment(x0 as int, y0 as int, x1 as int, y1 as int, x, y),
            color,
        ),
{
    let mut x = x0;
    let mut y = y0;
    let dx: i32 = if x1 >= x0 {
        x1 - x0
    } else {
        x0 - x1
    };
    let sx: i32 = if x0 < x1 {
        1
    } else {
        -1
    };
    let rise: i32 = if y1 >= y0 {
        y1 - y0
    } else {
        y0 - y1
    };
    let dy: i32 = -rise;
    let sy: i32 = if y0 < y1 {
        1
    } else {
        -1
    };
    let mut err: i32 = dx + dy;
    let ghost mut a: int = 0;
    let ghost mut b: int = 0;
    proof {
        assert(lean(dx as int, rise as int, 0, 0) == 0) by (nonlinear_arith);
        assert(buffer@ =~= painted(
            old(buffer)@,
            |px: int, py: int|
                on_segment(x0 as int, y0 as int, x1 as int, y1 as int, px, py) && progress(
                    dx as int,
                    rise as int,
                    steps_along(x0 as int, x1 as int, px),
                    steps_along(y0 as int, y1 as int, py),
                ) < 0,
            color,
        ));
    }
    loop
        invariant
            buffer@.len() == old(buffer)@.len(),
            buffer@.len() >= VIZ_W * VIZ_H,
            dx == extent(x0 as int, x1 as int),
            rise == extent(y0 as int, y1 as int),
            dx <= LINE_REACH,
            rise <= LINE_REACH,
            dy == -rise,
            sx == (if x0 < x1 {
                1i32
            } else {
                -1i32
            }),
            sy == (if y0 < y1 {
                1i32
            } else {
                -1i32
            }),
            a == steps_along(x0 as int, x1 as int, x as int),
            b == steps_along(y0 as int, y1 as int, y as int),
            nearest_to_line(dx as int, rise as int, a, b),
            2 * err == 2 * dx - 2 * rise + lean(dx as int, rise as int, a, b),
            buffer@ == painted(
                old(buffer)@,
                |px: int, py: int|
                    on_segment(x0 as int, y0 as int, x1 as int, y1 as int, px, py) && progress(
                        dx as int,
                        rise as int,
                        steps_along(x0 as int, x1 as int, px),
                        steps_along(y0 as int, y1 as int, py),
                    ) < progress(dx as int, rise as int, a, b),
                color,
            ),
        decreases (dx - a) + (rise - b),
    {
        plot(x, y, color, buffer);
        proof {
            let k = progress(dx as int, rise as int, a, b);
            let shape = |px: int, py: int|
                on_segment(x0 as int, y0 as int, x1 as int, y1 as int, px, py) && progress(
                    dx as int,
                    rise as int,
                    steps_along(x0 as int, x1 as int, px),
                    steps_along(y0 as int, y1 as int, py),
                ) < k + 1;
            assert forall|i: int| 0 <= i < buffer@.len() implies #[trigger] buffer@[i] == painted(
                old(buffer)@,
                shape,
                color,
            )[i] by {
                lemma_pixel_coords(i);
                let px = column_of(i);
                let py = row_of(i);
                let pa = steps_along(x0 as int, x1 as int, px);
                let pb = steps_along(y0 as int, y1 as int, py);
                if on_segment(x0 as int, y0 as int, x1 as int, y1 as int, px, py) && progress(
                    dx as int,
                    rise as int,
                    pa,
                    pb,
                ) == k {
                    lemma_nearest_is_unique(dx as int, rise as int, a, b, pa, pb);
                }
            }
            assert(buffer@ =~= painted(old(buffer)@, shape, color));
        }
        if x == x1 && y == y1 {
            proof {
                assert forall|i: int| 0 <= i < buffer@.len() implies #[trigger] buffer@[i]
                    == painted(
                    old(buffer)@,
                    |px: int, py: int|
                        on_segment(x0 as int, y0 as int, x1 as int, y1 as int, px, py),
                    color,
                )[i] by {
                    lemma_pixel_coords(i);
                }
                assert(buffer@ =~= painted(
                    old(buffer)@,
                    |px: int, py: int|
                        on_segment(x0 as int, y0 as int, x1 as int, y1 as int, px, py),
                    color,
                ));
            }
            return ;
        }
        proof {
            lemma_line_step(dx as int, rise as int, a, b);
        }
        let ghost a0 = a;
        let ghost b0 = b;
        let ghost err0 = err as int;
        let e2 = 2 * err;
        if e2 >= dy {
            err += dy;
            x += sx;
            proof {
                a = a + 1;
            }
        }
        if e2 <= dx {
            err += dx;
            y += sy;
            proof {
                b = b + 1;
            }
        }
        proof {
            assert(lean(dx as int, rise as int, a, b) == lean(dx as int, rise as int, a0, b0) + 2
                * dx * (b - b0) - 2 * rise * (a - a0)) by (nonlinear_arith);
            assert(2 * dx * (b - b0) == if b == b0 {
                0
            } else {
                2 * dx
            }) by (nonlinear_arith)
                requires
                    b == b0 || b == b0 + 1,
            ;
            assert(2 * rise * (a - a0) == if a == a0 {
                0
            } else {
                2 * rise
            }) by (nonlinear_arith)
                requires
                    a == a0 || a == a0 + 1,
            ;
        }
    }
}

} // verus!
