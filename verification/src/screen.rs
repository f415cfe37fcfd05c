//! The screen: its size, how pixels are numbered, and the depth test that
//! every depth-tested primitive goes through.
//!
//! A depth is an integer key: of two fragments at one pixel the one with the
//! larger key is kept. A caller that measures depth otherwise maps each
//! value to its rank in that order first.

use vstd::prelude::*;

verus! {

/// Width of the screen in pixels.
pub const WIDTH: usize = 1280;

/// Height of the screen in pixels.
pub const HEIGHT: usize = 720;

/// The depth of a pixel on which nothing has been drawn: no key lies below
/// it.
pub const DEPTH_FLOOR: i32 = i32::MIN;

/// A place on the screen plane, in whole pixels. It may lie off the screen.
#[derive(Clone, Copy, Debug, PartialEq, Eq, Structural)]
pub struct ScreenPoint {
    pub x: i32,
    pub y: i32,
}

/// Whether `(x, y)` is a pixel of the screen.
pub open spec fn on_screen(x: int, y: int) -> bool {
    0 <= x < WIDTH && 0 <= y < HEIGHT
}

/// Place of pixel `(x, y)` in a buffer: rows follow one another, top row
/// first.
pub open spec fn pixel_index(x: int, y: int) -> int {
    y * WIDTH + x
}

/// The colour and depth buffers after one fragment has gone through the
/// depth test: the fragment is kept where it lies on the screen, inside
/// both buffers, and its depth is strictly greater than the depth stored at
/// its pixel; otherwise nothing changes.
pub open spec fn plotted(
    buffer: Seq<u32>,
    z_buffer: Seq<i32>,
    x: int,
    y: int,
    depth: i32,
    color: u32,
) -> (Seq<u32>, Seq<i32>) {
    let i = pixel_index(x, y);
    if on_screen(x, y) && i < buffer.len() && i < z_buffer.len() && depth > z_buffer[i] {
        (buffer.update(i, color), z_buffer.update(i, depth))
    } else {
        (buffer, z_buffer)
    }
}

/// Two different pixels of the screen have two different indices.
pub proof fn lemma_pixel_index_distinct(x: int, y: int, u: int, v: int)
    requires
        on_screen(x, y),
        on_screen(u, v),
        (x, y) != (u, v),
    ensures
        pixel_index(x, y) != pixel_index(u, v),
{
}

/// What depth-tested drawing may do to a frame: both buffers keep their
/// length, no stored depth goes down, and a colour changes only where the
/// depth at its pixel has gone up.
pub open spec fn depth_tested(
    buffer: Seq<u32>,
    z_buffer: Seq<i32>,
    after: (Seq<u32>, Seq<i32>),
) -> bool {
    &&& after.0.len() == buffer.len()
    &&& after.1.len() == z_buffer.len()
    &&& forall|i: int| 0 <= i < z_buffer.len() ==> #[trigger] after.1[i] >= z_buffer[i]
    &&& forall|i: int|
        0 <= i < buffer.len() && (i >= z_buffer.len() || after.1[i] == z_buffer[i])
            ==> #[trigger] after.0[i] == buffer[i]
}

/// One fragment through the depth test is depth-tested drawing.
pub proof fn lemma_plotted_depth_tested(
    buffer: Seq<u32>,
    z_buffer: Seq<i32>,
    x: int,
    y: int,
    depth: i32,
    color: u32,
)
    ensures
        depth_tested(buffer, z_buffer, plotted(buffer, z_buffer, x, y, depth, color)),
{
}

/// Depth-tested drawing after depth-tested drawing is depth-tested
/// drawing.
pub proof fn lemma_depth_tested_twice(
    buffer: Seq<u32>,
    z_buffer: Seq<i32>,
    middle: (Seq<u32>, Seq<i32>),
    after: (Seq<u32>, Seq<i32>),
)
    requires
        depth_tested(buffer, z_buffer, middle),
        depth_tested(middle.0, middle.1, after),
    ensures
        depth_tested(buffer, z_buffer, after),
{
    assert forall|i: int| 0 <= i < z_buffer.len() implies #[trigger] after.1[i] >= z_buffer[i] by {
        assert(middle.1[i] >= z_buffer[i]);
    }
    assert forall|i: int|
        0 <= i < buffer.len() && (i >= z_buffer.len() || after.1[i]
            == z_buffer[i]) implies #[trigger] after.0[i] == buffer[i] by {
        if i < z_buffer.len() {
            assert(middle.1[i] >= z_buffer[i]);
            assert(after.1[i] >= middle.1[i]);
        }
        assert(middle.0[i] == buffer[i]);
    }
}

/// Puts one fragment through the depth test.
pub fn plot(buffer: &mut Vec<u32>, z_buffer: &mut Vec<i32>, x: i32, y: i32, depth: i32, color: u32)
    ensures
        (final(buffer)@, final(z_buffer)@) == plotted(
            old(buffer)@,
            old(z_buffer)@,
            x as int,
            y as int,
            depth,
            color,
        ),
{
    if x >= 0 && x < WIDTH as i32 && y >= 0 && y < HEIGHT as i32 {
        let idx: usize = y as usize * WIDTH + x as usize;
        if idx < buffer.len() && idx < z_buffer.len() && depth > z_buffer[idx] {
            z_buffer[idx] = depth;
            buffer[idx] = color;
        }
    }
}

/// Resets a frame: every pixel black, every depth at the floor.
pub fn clear_buffers(buffer: &mut Vec<u32>, z_buffer: &mut Vec<i32>)
    ensures
        final(buffer)@.len() == old(buffer)@.len(),
        final(z_buffer)@.len() == old(z_buffer)@.len(),
        forall|i: int| 0 <= i < final(buffer)@.len() ==> final(buffer)@[i] == 0,
        forall|i: int| 0 <= i < final(z_buffer)@.len() ==> final(z_buffer)@[i] == DEPTH_FLOOR,
{
    let n: usize = buffer.len();
    let mut i: usize = 0;
    while i < n
        invariant
            buffer@.len() == n,
            i <= n,
            forall|j: int| 0 <= j < i ==> buffer@[j] == 0,
        decreases n - i,
    {
        buffer[i] = 0;
        i = i + 1;
    }
    let m: usize = z_buffer.len();
    let mut k: usize = 0;
    while k < m
        invariant
            z_buffer@.len() == m,
            k <= m,
            forall|j: int| 0 <= j < k ==> z_buffer@[j] == DEPTH_FLOOR,
        decreases m - k,
    {
        z_buffer[k] = DEPTH_FLOOR;
        k = k + 1;
    }
}

} // verus!
