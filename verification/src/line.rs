//! Depth-tested lines.
//!
//! A line carries a depth at each of its pixels. The depths lie between
//! the depths of the two ends: the pixel reached after `k` steps stands at
//! the fraction `k / step_divisor` of the way.

use vstd::prelude::*;
use crate::bresenham::{count_steps, lemma_line_points_distinct, line_point, line_steps, LineWalk};
use crate::screen::{
    depth_tested, lemma_depth_tested_twice, lemma_pixel_index_distinct, lemma_plotted_depth_tested,
    on_screen, pixel_index, plot, plotted,
};

verus! {

/// The buffers after the first `n` pixels of the line from `(x0, y0)` to
/// `(x1, y1)` have gone through the depth test, pixel `k` with depth
/// `depths[k]`. A pixel for which `depths` holds no depth is left out.
pub open spec fn line_drawn(
    buffer: Seq<u32>,
    z_buffer: Seq<i32>,
    x0: int,
    y0: int,
    x1: int,
    y1: int,
    depths: Seq<i32>,
    color: u32,
    n: nat,
) -> (Seq<u32>, Seq<i32>)
    decreases n,
{
    if n == 0 {
        (buffer, z_buffer)
    } else {
        let before = line_drawn(buffer, z_buffer, x0, y0, x1, y1, depths, color, (n - 1) as nat);
        let p = line_point(x0, y0, x1, y1, n - 1);
        if n - 1 < depths.len() {
            plotted(before.0, before.1, p.0, p.1, depths[n - 1], color)
        } else {
            before
        }
    }
}

/// The divisor of the step fraction of a line: the number of its steps,
/// or one for a line of a single pixel.
pub open spec fn divisor_of(x0: int, y0: int, x1: int, y1: int) -> int {
    if line_steps(x0, y0, x1, y1) >= 1 {
        line_steps(x0, y0, x1, y1)
    } else {
        1
    }
}

/// The divisor of the step fraction of a line.
pub fn step_divisor(x0: i32, y0: i32, x1: i32, y1: i32) -> (d: u32)
    ensures
        d == divisor_of(x0 as int, y0 as int, x1 as int, y1 as int),
        d >= 1,
{
    let steps: u32 = count_steps(x0, y0, x1, y1);
    if steps >= 1 {
        steps
    } else {
        1
    }
}

/// Draws the line from `(x0, y0)` to `(x1, y1)` in one colour. The pixel
/// reached after `k` steps carries the depth `depths[k]`; each pixel goes
/// through the depth test. Pixels off the screen, and pixels for which
/// `depths` holds no depth, are skipped.
pub fn draw_line(
    buffer: &mut Vec<u32>,
    z_buffer: &mut Vec<i32>,
    x0: i32,
    y0: i32,
    x1: i32,
    y1: i32,
    depths: &Vec<i32>,
    color: u32,
)
    ensures
        (final(buffer)@, final(z_buffer)@) == line_drawn(
            old(buffer)@,
            old(z_buffer)@,
            x0 as int,
            y0 as int,
            x1 as int,
            y1 as int,
            depths@,
            color,
            (line_steps(x0 as int, y0 as int, x1 as int, y1 as int) + 1) as nat,
        ),
        depth_tested(old(buffer)@, old(z_buffer)@, (final(buffer)@, final(z_buffer)@)),
{
    proof {
        lemma_line_depth_tested(
            buffer@,
            z_buffer@,
            x0 as int,
            y0 as int,
            x1 as int,
            y1 as int,
            depths@,
            color,
            (line_steps(x0 as int, y0 as int, x1 as int, y1 as int) + 1) as nat,
        );
    }
    let mut walk = LineWalk::new(x0, y0, x1, y1);
    loop
        invariant_except_break
            walk.wf(),
            walk.origin() == (x0 as int, y0 as int),
            walk.target() == (x1 as int, y1 as int),
            (buffer@, z_buffer@) == line_drawn(
                old(buffer)@,
                old(z_buffer)@,
                x0 as int,
                y0 as int,
                x1 as int,
                y1 as int,
                depths@,
                color,
                walk.index() as nat,
            ),
        ensures
            (buffer@, z_buffer@) == line_drawn(
                old(buffer)@,
                old(z_buffer)@,
                x0 as int,
                y0 as int,
                x1 as int,
                y1 as int,
                depths@,
                color,
                (line_steps(x0 as int, y0 as int, x1 as int, y1 as int) + 1) as nat,
            ),
        decreases walk.steps() - walk.index(),
    {
        let p = walk.position();
        let k: u32 = walk.taken();
        if (k as usize) < depths.len() {
            plot(buffer, z_buffer, p.0, p.1, depths[k as usize], color);
        }
        if walk.finished() {
            break;
        }
        walk.advance();
    }
}

/// A line is depth-tested drawing.
pub proof fn lemma_line_depth_tested(
    buffer: Seq<u32>,
    z_buffer: Seq<i32>,
    x0: int,
    y0: int,
    x1: int,
    y1: int,
    depths: Seq<i32>,
    color: u32,
    n: nat,
)
    ensures
        depth_tested(
            buffer,
            z_buffer,
            line_drawn(buffer, z_buffer, x0, y0, x1, y1, depths, color, n),
        ),
    decreases n,
{
    if n > 0 {
        let before = line_drawn(buffer, z_buffer, x0, y0, x1, y1, depths, color, (n - 1) as nat);
        let p = line_point(x0, y0, x1, y1, n - 1);
        lemma_line_depth_tested(buffer, z_buffer, x0, y0, x1, y1, depths, color, (n - 1) as nat);
        if n - 1 < depths.len() {
            lemma_plotted_depth_tested(before.0, before.1, p.0, p.1, depths[n - 1], color);
        }
        lemma_depth_tested_twice(
            buffer,
            z_buffer,
            before,
            line_drawn(buffer, z_buffer, x0, y0, x1, y1, depths, color, n),
        );
    }
}

/// Whether one of the first `n` pixels of the line is the pixel with
/// index `i`.
pub open spec fn line_covers(x0: int, y0: int, x1: int, y1: int, n: nat, i: int) -> bool {
    exists|k: int|
        0 <= k < n && on_screen(
            (#[trigger] line_point(x0, y0, x1, y1, k)).0,
            line_point(x0, y0, x1, y1, k).1,
        ) && pixel_index(line_point(x0, y0, x1, y1, k).0, line_point(x0, y0, x1, y1, k).1) == i
}

/// A line leaves every entry alone on which none of its pixels falls.
pub proof fn lemma_line_drawn_elsewhere(
    buffer: Seq<u32>,
    z_buffer: Seq<i32>,
    x0: int,
    y0: int,
    x1: int,
    y1: int,
    depths: Seq<i32>,
    color: u32,
    n: nat,
    i: int,
)
    requires
        !line_covers(x0, y0, x1, y1, n, i),
    ensures
        0 <= i < buffer.len() ==> line_drawn(buffer, z_buffer, x0, y0, x1, y1, depths, color, n).0[i]
            == buffer[i],
        0 <= i < z_buffer.len() ==> line_drawn(
            buffer,
            z_buffer,
            x0,
            y0,
            x1,
            y1,
            depths,
            color,
            n,
        ).1[i] == z_buffer[i],
    decreases n,
{
    lemma_line_depth_tested(buffer, z_buffer, x0, y0, x1, y1, depths, color, n);
    if n > 0 {
        let p = line_point(x0, y0, x1, y1, n - 1);
        assert(!(on_screen(p.0, p.1) && pixel_index(p.0, p.1) == i));
        if line_covers(x0, y0, x1, y1, (n - 1) as nat, i) {
            let k = choose|k: int|
                0 <= k < n - 1 && on_screen(
                    (#[trigger] line_point(x0, y0, x1, y1, k)).0,
                    line_point(x0, y0, x1, y1, k).1,
                ) && pixel_index(line_point(x0, y0, x1, y1, k).0, line_point(x0, y0, x1, y1, k).1)
                    == i;
            assert(0 <= k < n);
        }
        lemma_line_drawn_elsewhere(
            buffer,
            z_buffer,
            x0,
            y0,
            x1,
            y1,
            depths,
            color,
            (n - 1) as nat,
            i,
        );
        lemma_line_depth_tested(buffer, z_buffer, x0, y0, x1, y1, depths, color, (n - 1) as nat);
    }
}

/// At the pixel of its step `k` a line leaves the greater of the stored
/// depth and `depths[k]`, and its own colour where `depths[k]` is the
/// greater; no other step touches that pixel.
pub proof fn lemma_line_drawn_at(
    buffer: Seq<u32>,
    z_buffer: Seq<i32>,
    x0: int,
    y0: int,
    x1: int,
    y1: int,
    depths: Seq<i32>,
    color: u32,
    n: nat,
    k: int,
)
    requires
        0 <= k < n,
        k < depths.len(),
        on_screen(line_point(x0, y0, x1, y1, k).0, line_point(x0, y0, x1, y1, k).1),
        pixel_index(line_point(x0, y0, x1, y1, k).0, line_point(x0, y0, x1, y1, k).1)
            < buffer.len(),
        pixel_index(line_point(x0, y0, x1, y1, k).0, line_point(x0, y0, x1, y1, k).1)
            < z_buffer.len(),
    ensures
        ({
            let after = line_drawn(buffer, z_buffer, x0, y0, x1, y1, depths, color, n);
            let i = pixel_index(line_point(x0, y0, x1, y1, k).0, line_point(x0, y0, x1, y1, k).1);
            &&& after.1[i] == if depths[k] > z_buffer[i] {
                depths[k]
            } else {
                z_buffer[i]
            }
            &&& after.0[i] == if depths[k] > z_buffer[i] {
                color
            } else {
                buffer[i]
            }
        }),
    decreases n,
{
    let pk = line_point(x0, y0, x1, y1, k);
    let i = pixel_index(pk.0, pk.1);
    let before = line_drawn(buffer, z_buffer, x0, y0, x1, y1, depths, color, (n - 1) as nat);
    lemma_line_depth_tested(buffer, z_buffer, x0, y0, x1, y1, depths, color, (n - 1) as nat);
    if k == n - 1 {
        assert(!line_covers(x0, y0, x1, y1, (n - 1) as nat, i)) by {
            if line_covers(x0, y0, x1, y1, (n - 1) as nat, i) {
                let j = choose|j: int|
                    0 <= j < n - 1 && on_screen(
                        (#[trigger] line_point(x0, y0, x1, y1, j)).0,
                        line_point(x0, y0, x1, y1, j).1,
                    ) && pixel_index(
                        line_point(x0, y0, x1, y1, j).0,
                        line_point(x0, y0, x1, y1, j).1,
                    ) == i;
                lemma_line_points_distinct(x0, y0, x1, y1, j, k);
                lemma_pixel_index_distinct(
                    line_point(x0, y0, x1, y1, j).0,
                    line_point(x0, y0, x1, y1, j).1,
                    pk.0,
                    pk.1,
                );
            }
        }
        lemma_line_drawn_elsewhere(
            buffer,
            z_buffer,
            x0,
            y0,
            x1,
            y1,
            depths,
            color,
            (n - 1) as nat,
            i,
        );
    } else {
        lemma_line_drawn_at(buffer, z_buffer, x0, y0, x1, y1, depths, color, (n - 1) as nat, k);
        let p = line_point(x0, y0, x1, y1, n - 1);
        lemma_line_points_distinct(x0, y0, x1, y1, n - 1, k);
        if on_screen(p.0, p.1) {
            lemma_pixel_index_distinct(p.0, p.1, pk.0, pk.1);
        }
    }
}

} // verus!
