//! The picture of a window of samples: a grid, two axes, and the samples joined by lines.

use crate::canvas::{
    clear_buffer,
    draw_axes,
    draw_grid,
    draw_line,
    grid_step,
    held_below,
    on_axes,
    on_grid,
    on_segment,
    painted,
    point_xy,
    x_offset,
    y_offset,
    VIZ_H,
    VIZ_W,
};
use std::collections::VecDeque;
use vstd::prelude::*;

verus! {

/// The colour of the background.
pub const PAPER: u32 = 0xFFFF_FFFF;

/// The colour of the grid.
pub const GRID: u32 = 0xFFE0_E0E0;

/// The colour of the axes and of the curve.
pub const INK: u32 = 0xFF00_0000;

/// How far the grid lines are apart.
pub const GRID_SPACING: usize = 50;

/// How far the plot keeps from the edge of the surface.
pub const PAD: usize = 10;

/// The largest of the samples, and 1 where there is none larger.
pub open spec fn peak(samples: Seq<usize>) -> usize
    decreases samples.len(),
{
    if samples.len() == 0 {
        1
    } else if samples.last() > peak(samples.drop_last()) {
        samples.last()
    } else {
        peak(samples.drop_last())
    }
}

/// The pixel that sample `i` is drawn at.
pub open spec fn sample_point(samples: Seq<usize>, i: int) -> (int, int) {
    (
        held_below(PAD + x_offset(i, samples.len() as int, VIZ_W - 2 * PAD), VIZ_W as int),
        held_below(
            PAD + y_offset(samples[i] as int, peak(samples) as int, VIZ_H - 2 * PAD),
            VIZ_H as int,
        ),
    )
}

/// The surface before the curve is drawn: blank, with the grid and the axes.
pub open spec fn backdrop(pixels: Seq<u32>) -> Seq<u32> {
    painted(
        painted(
            Seq::new(pixels.len(), |i: int| PAPER),
            |x: int, y: int| on_grid(grid_step(GRID_SPACING), x, y),
            GRID,
        ),
        |x: int, y: int| on_axes(PAD as int, x, y),
        INK,
    )
}

/// The surface after the first `upto` samples have been joined by lines.
pub open spec fn traced(pixels: Seq<u32>, samples: Seq<usize>, upto: int) -> Seq<u32>
    decreases upto,
{
    if upto <= 1 {
        pixels
    } else {
        let p = sample_point(samples, upto - 2);
        let q = sample_point(samples, upto - 1);
        painted(
            traced(pixels, samples, upto - 1),
            |x: int, y: int| on_segment(p.0, p.1, q.0, q.1, x, y),
            INK,
        )
    }
}

/// The picture of the samples.
pub open spec fn picture(pixels: Seq<u32>, samples: Seq<usize>) -> Seq<u32> {
    traced(backdrop(pixels), samples, samples.len() as int)
}

/// Law: the largest sample is no smaller than any sample, and at least 1.
pub proof fn lemma_peak_is_largest(samples: Seq<usize>, i: int)
    requires
        0 <= i < samples.len(),
    ensures
        samples[i] <= peak(samples),
        peak(samples) >= 1,
    decreases samples.len(),
{
    if i < samples.len() - 1 {
        lemma_peak_is_largest(samples.drop_last(), i);
    } else if samples.len() > 1 {
        lemma_peak_is_largest(samples.drop_last(), 0);
    }
}

/// Law: every sample is drawn on the surface.
pub proof fn lemma_sample_point_in_frame(samples: Seq<usize>, i: int)
    requires
        0 <= i < samples.len() <= usize::MAX,
    ensures
        0 <= sample_point(samples, i).0 < VIZ_W,
        0 <= sample_point(samples, i).1 < VIZ_H,
{
    lemma_offsets_are_small(i, samples[i] as int, samples.len() as int, peak(samples) as int);
}

proof fn lemma_offsets_are_small(i: int, bits: int, len: int, top: int)
    requires
        0 <= i < len <= usize::MAX,
        0 <= bits <= usize::MAX,
        0 <= top,
    ensures
        0 <= x_offset(i, len, VIZ_W - 2 * PAD) <= usize::MAX / 2 + 479,
        0 <= y_offset(bits, top, VIZ_H - 2 * PAD) <= 479,
{
    let gaps = if len >= 2 {
        len - 1
    } else {
        1
    };
    let product = if i * 479 > usize::MAX {
        usize::MAX as int
    } else {
        i * 479
    };
    assert(0 <= i * 479) by (nonlinear_arith)
        requires
            0 <= i,
    ;
    assert(0 <= product / gaps) by (nonlinear_arith)
        requires
            0 <= product,
            gaps >= 1,
    ;
    if gaps >= 2 {
        assert(product / gaps <= usize::MAX / 2) by (nonlinear_arith)
            requires
                0 <= product <= usize::MAX,
                gaps >= 2,
        ;
    } else {
        assert(i <= 1);
        assert(product / 1 == product);
    }
    let scale = if top >= 1 {
        top
    } else {
        1
    };
    let raised = if bits * 479 > usize::MAX {
        usize::MAX as int
    } else {
        bits * 479
    };
    assert(0 <= bits * 479) by (nonlinear_arith)
        requires
            0 <= bits,
    ;
    assert(0 <= raised / scale) by (nonlinear_arith)
        requires
            0 <= raised,
            scale >= 1,
    ;
}

/// The largest of the samples, and 1 where there is none larger.
pub fn highest(samples: &VecDeque<usize>) -> (top: usize)
    ensures
        top == peak(samples@),
{
    let mut top: usize = 1;
    let mut i: usize = 0;
    while i < samples.len()
        invariant
            i <= samples.len(),
            top == peak(samples@.take(i as int)),
        decreases samples.len() - i,
    {
        proof {
            assert(samples@.take(i + 1).drop_last() =~= samples@.take(i as int));
        }
        if samples[i] > top {
            top = samples[i];
        }
        i += 1;
    }
    assert(samples@.take(samples.len() as int) =~= samples@);
    top
}

/// Draws the picture of the samples, if there are at least two of them, and says whether it
/// did. With fewer samples the surface is left as it is.
pub fn render(samples: &VecDeque<usize>, buffer: &mut [u32]) -> (drawn: bool)
    requires
        old(buffer)@.len() >= VIZ_W * VIZ_H,
    ensures
        drawn == (samples@.len() >= 2),
        final(buffer)@ == (if samples@.len() >= 2 {
            picture(old(buffer)@, samples@)
        } else {
            old(buffer)@
        }),
{
    let len = samples.len();
    if len < 2 {
        return false;
    }
    clear_buffer(buffer, PAPER);
    draw_grid(buffer, GRID_SPACING, GRID);
    draw_axes(buffer, PAD, INK);
    let width = VIZ_W - 2 * PAD;
    let height = VIZ_H - 2 * PAD;
    let top = highest(samples);
    proof {
        lemma_offsets_are_small(0, samples@[0] as int, len as int, top as int);
    }
    let mut prev = point_xy(0, samples[0], len, top, width, height, PAD);
    let mut i: usize = 1;
    while i < len
        invariant
            1 <= i <= len,
            len == samples@.len(),
            top == peak(samples@),
            width == VIZ_W - 2 * PAD,
            height == VIZ_H - 2 * PAD,
            buffer@.len() == old(buffer)@.len(),
            buffer@.len() >= VIZ_W * VIZ_H,
            (prev.0 as int, prev.1 as int) == sample_point(samples@, i - 1),
            buffer@ == traced(backdrop(old(buffer)@), samples@, i as int),
        decreases len - i,
    {
        proof {
            lemma_offsets_are_small(i as int, samples@[i as int] as int, len as int, top as int);
            lemma_sample_point_in_frame(samples@, i as int);
            lemma_sample_point_in_frame(samples@, i - 1);
        }
        let curr = point_xy(i, samples[i], len, top, width, height, PAD);
        draw_line(prev.0 as i32, prev.1 as i32, curr.0 as i32, curr.1 as i32, INK, buffer);
        prev = curr;
        i += 1;
    }
    true
}

} // verus!
