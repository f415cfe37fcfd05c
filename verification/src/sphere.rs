//! Filling the screen rectangle of a sphere, pixel by pixel, through the
//! depth test.
//!
//! What a sphere looks like at a pixel is worked out by the caller and
//! handed over as a fragment: a depth and a colour, or nothing where the
//! pixel lies outside the sphere's disc. This module decides which pixels
//! are visited and which fragments are kept.

use vstd::prelude::*;
use crate::screen::{depth_tested, plot, HEIGHT, WIDTH};

verus! {

/// What a sphere shows at one pixel.
#[derive(Clone, Copy, Debug)]
pub struct Fragment {
    pub depth: i32,
    pub color: u32,
}

/// A rectangle of pixels, both ends included. It is empty where a lower
/// end lies above the upper one.
#[derive(Clone, Copy, Debug)]
pub struct PixelBox {
    pub x_min: i32,
    pub x_max: i32,
    pub y_min: i32,
    pub y_max: i32,
}

/// `v` brought into `0 ..= last`.
pub open spec fn clamped(v: int, last: int) -> int {
    if v < 0 {
        0
    } else if v > last {
        last
    } else {
        v
    }
}

impl PixelBox {
    /// Whether pixel `(x, y)` lies in the rectangle.
    pub open spec fn contains(self, x: int, y: int) -> bool {
        self.x_min <= x <= self.x_max && self.y_min <= y <= self.y_max
    }

    /// Whether every pixel of the rectangle is a pixel of the screen.
    pub open spec fn within_screen(self) -> bool {
        &&& 0 <= self.x_min < WIDTH
        &&& 0 <= self.x_max < WIDTH
        &&& 0 <= self.y_min < HEIGHT
        &&& 0 <= self.y_max < HEIGHT
    }

    /// Number of pixels in a row of the rectangle.
    pub open spec fn row_len(self) -> int {
        if self.x_min <= self.x_max {
            self.x_max - self.x_min + 1
        } else {
            0
        }
    }

    /// Number of pixels in the rectangle.
    pub open spec fn area(self) -> int {
        if self.y_min <= self.y_max {
            self.row_len() * (self.y_max - self.y_min + 1)
        } else {
            0
        }
    }

    /// Place of pixel `(x, y)` among the rectangle's pixels, rows following
    /// one another.
    pub open spec fn slot(self, x: int, y: int) -> int {
        (y - self.y_min) * self.row_len() + (x - self.x_min)
    }
}

/// The rectangle with each of its four ends brought onto the screen.
pub open spec fn screen_box(x_lo: int, x_hi: int, y_lo: int, y_hi: int) -> PixelBox {
    PixelBox {
        x_min: clamped(x_lo, WIDTH - 1) as i32,
        x_max: clamped(x_hi, WIDTH - 1) as i32,
        y_min: clamped(y_lo, HEIGHT - 1) as i32,
        y_max: clamped(y_hi, HEIGHT - 1) as i32,
    }
}

/// Brings the four ends of a rectangle onto the screen.
pub fn clamp_box(x_lo: i32, x_hi: i32, y_lo: i32, y_hi: i32) -> (b: PixelBox)
    ensures
        b == screen_box(x_lo as int, x_hi as int, y_lo as int, y_hi as int),
        b.within_screen(),
{
    PixelBox {
        x_min: clamp_coordinate(x_lo, WIDTH as i32 - 1),
        x_max: clamp_coordinate(x_hi, WIDTH as i32 - 1),
        y_min: clamp_coordinate(y_lo, HEIGHT as i32 - 1),
        y_max: clamp_coordinate(y_hi, HEIGHT as i32 - 1),
    }
}

fn clamp_coordinate(v: i32, last: i32) -> (r: i32)
    requires
        0 <= last,
    ensures
        r == clamped(v as int, last as int),
{
    if v < 0 {
        0
    } else if v > last {
        last
    } else {
        v
    }
}

/// Number of fragments that the rectangle takes: one for each of its
/// pixels.
pub fn box_area(b: &PixelBox) -> (n: usize)
    requires
        b.within_screen(),
    ensures
        n == b.area(),
        n <= WIDTH * HEIGHT,
{
    if b.x_min > b.x_max || b.y_min > b.y_max {
        assert(b.area() == 0) by (nonlinear_arith)
            requires
                b.x_min > b.x_max || b.y_min > b.y_max,
                b.area() == if b.y_min <= b.y_max {
                    b.row_len() * (b.y_max - b.y_min + 1)
                } else {
                    0
                },
                b.row_len() == if b.x_min <= b.x_max {
                    b.x_max - b.x_min + 1
                } else {
                    0
                },
        ;
        0
    } else {
        let w: usize = (b.x_max - b.x_min + 1) as usize;
        let h: usize = (b.y_max - b.y_min + 1) as usize;
        assert(w * h <= 1280 * 720) by (nonlinear_arith)
            requires
                0 < w <= 1280,
                0 < h <= 720,
        ;
        w * h
    }
}

/// Whether the fragment of pixel `i` is kept: the pixel lies in the
/// rectangle and inside both buffers, `fragments` holds a fragment for it,
/// and the fragment's depth is strictly greater than the depth stored at
/// the pixel.
pub open spec fn fragment_kept(
    buffer: Seq<u32>,
    z_buffer: Seq<i32>,
    b: PixelBox,
    fragments: Seq<Option<Fragment>>,
    i: int,
) -> bool {
    let x = i % (WIDTH as int);
    let y = i / (WIDTH as int);
    &&& 0 <= i < buffer.len()
    &&& i < z_buffer.len()
    &&& b.contains(x, y)
    &&& b.slot(x, y) < fragments.len()
    &&& fragments[b.slot(x, y)] is Some
    &&& fragments[b.slot(x, y)]->0.depth > z_buffer[i]
}

/// The buffers after a sphere's rectangle has been filled: each pixel whose
/// fragment is kept takes the fragment's colour and depth, and every other
/// entry stays as it was.
pub open spec fn sphere_drawn(
    buffer: Seq<u32>,
    z_buffer: Seq<i32>,
    b: PixelBox,
    fragments: Seq<Option<Fragment>>,
) -> (Seq<u32>, Seq<i32>) {
    (
        Seq::new(
            buffer.len(),
            |i: int|
                if fragment_kept(buffer, z_buffer, b, fragments, i) {
                    fragments[b.slot(i % (WIDTH as int), i / (WIDTH as int))]->0.color
                } else {
                    buffer[i]
                },
        ),
        Seq::new(
            z_buffer.len(),
            |i: int|
                if fragment_kept(buffer, z_buffer, b, fragments, i) {
                    fragments[b.slot(i % (WIDTH as int), i / (WIDTH as int))]->0.depth
                } else {
                    z_buffer[i]
                },
        ),
    )
}

/// Whether every entry outside the rectangle is as it was.
pub open spec fn kept_outside(
    b: PixelBox,
    buffer: Seq<u32>,
    z_buffer: Seq<i32>,
    after: (Seq<u32>, Seq<i32>),
) -> bool {
    &&& forall|i: int|
        0 <= i < buffer.len() && !b.contains(i % (WIDTH as int), i / (WIDTH as int))
            ==> #[trigger] after.0[i] == buffer[i]
    &&& forall|i: int|
        0 <= i < z_buffer.len() && !b.contains(i % (WIDTH as int), i / (WIDTH as int))
            ==> #[trigger] after.1[i] == z_buffer[i]
}

/// Whether pixel `i` comes before `(x, y)` in drawing order.
spec fn visited(b: PixelBox, x: int, y: int, i: int) -> bool {
    let xi = i % (WIDTH as int);
    let yi = i / (WIDTH as int);
    b.contains(xi, yi) && (yi < y || (yi == y && xi < x))
}

/// The buffers when the drawing stands before pixel `(x, y)`.
spec fn sphere_partial(
    buffer: Seq<u32>,
    z_buffer: Seq<i32>,
    b: PixelBox,
    fragments: Seq<Option<Fragment>>,
    x: int,
    y: int,
) -> (Seq<u32>, Seq<i32>) {
    (
        Seq::new(
            buffer.len(),
            |i: int|
                if visited(b, x, y, i) && fragment_kept(buffer, z_buffer, b, fragments, i) {
                    fragments[b.slot(i % (WIDTH as int), i / (WIDTH as int))]->0.color
                } else {
                    buffer[i]
                },
        ),
        Seq::new(
            z_buffer.len(),
            |i: int|
                if visited(b, x, y, i) && fragment_kept(buffer, z_buffer, b, fragments, i) {
                    fragments[b.slot(i % (WIDTH as int), i / (WIDTH as int))]->0.depth
                } else {
                    z_buffer[i]
                },
        ),
    )
}

/// Fills the screen rectangle of a sphere. The rectangle is given by its
/// four ends, which are brought onto the screen first; `fragments` holds
/// one entry for each pixel of that rectangle, rows following one another.
/// Each fragment goes through the depth test at its pixel; a pixel that
/// `fragments` does not reach has none.
///
/// No entry outside the rectangle changes, and an entry changes only to a
/// strictly greater depth.
pub fn render_sphere(
    buffer: &mut Vec<u32>,
    z_buffer: &mut Vec<i32>,
    x_lo: i32,
    x_hi: i32,
    y_lo: i32,
    y_hi: i32,
    fragments: &Vec<Option<Fragment>>,
)
    ensures
        (final(buffer)@, final(z_buffer)@) == sphere_drawn(
            old(buffer)@,
            old(z_buffer)@,
            screen_box(x_lo as int, x_hi as int, y_lo as int, y_hi as int),
            fragments@,
        ),
        depth_tested(old(buffer)@, old(z_buffer)@, (final(buffer)@, final(z_buffer)@)),
        kept_outside(
            screen_box(x_lo as int, x_hi as int, y_lo as int, y_hi as int),
            old(buffer)@,
            old(z_buffer)@,
            (final(buffer)@, final(z_buffer)@),
        ),
{
    let b = clamp_box(x_lo, x_hi, y_lo, y_hi);
    let ghost buffer0 = buffer@;
    let ghost z0 = z_buffer@;
    if b.x_min > b.x_max || b.y_min > b.y_max {
        assert(sphere_drawn(buffer0, z0, b, fragments@).0 =~= buffer0);
        assert(sphere_drawn(buffer0, z0, b, fragments@).1 =~= z0);
        return ;
    }
    let ghost row = b.row_len();
    let mut slot: usize = 0;
    let mut y: i32 = b.y_min;
    assert(sphere_partial(buffer0, z0, b, fragments@, b.x_min as int, y as int).0 =~= buffer0);
    assert(sphere_partial(buffer0, z0, b, fragments@, b.x_min as int, y as int).1 =~= z0);
    assert((y - b.y_min) * row == 0) by (nonlinear_arith)
        requires
            y == b.y_min,
    ;
    while y <= b.y_max
        invariant
            b.within_screen(),
            b.x_min <= b.x_max,
            b.y_min <= y <= b.y_max + 1,
            row == b.row_len(),
            slot == (y - b.y_min) * row,
            (buffer@, z_buffer@) == sphere_partial(
                buffer0,
                z0,
                b,
                fragments@,
                b.x_min as int,
                y as int,
            ),
        decreases b.y_max - y + 1,
    {
        let mut x: i32 = b.x_min;
        while x <= b.x_max
            invariant
                b.within_screen(),
                b.x_min <= x <= b.x_max + 1,
                b.y_min <= y <= b.y_max,
                row == b.row_len(),
                slot == (y - b.y_min) * row + (x - b.x_min),
                (buffer@, z_buffer@) == sphere_partial(
                    buffer0,
                    z0,
                    b,
                    fragments@,
                    x as int,
                    y as int,
                ),
            decreases b.x_max - x + 1,
        {
            proof {
                lemma_slot_in_range(b, x as int, y as int);
            }
            let ghost before = (buffer@, z_buffer@);
            if slot < fragments.len() {
                match fragments[slot] {
                    Some(f) => {
                        plot(buffer, z_buffer, x, y, f.depth, f.color);
                    },
                    None => {},
                }
            }
            proof {
                let i0 = y as int * (WIDTH as int) + x as int;
                assert(i0 % (WIDTH as int) == x && i0 / (WIDTH as int) == y) by {
                    vstd::arithmetic::div_mod::lemma_fundamental_div_mod_converse(
                        i0,
                        WIDTH as int,
                        y as int,
                        x as int,
                    );
                }
                let next = sphere_partial(buffer0, z0, b, fragments@, x + 1, y as int);
                assert forall|i: int| 0 <= i < buffer0.len() implies buffer@[i] == next.0[i] by {
                    if i != i0 {
                        vstd::arithmetic::div_mod::lemma_fundamental_div_mod(i, WIDTH as int);
                    }
                }
                assert forall|i: int| 0 <= i < z0.len() implies z_buffer@[i] == next.1[i] by {
                    if i != i0 {
                        vstd::arithmetic::div_mod::lemma_fundamental_div_mod(i, WIDTH as int);
                    }
                }
                assert(buffer@ =~= next.0);
                assert(z_buffer@ =~= next.1);
            }
            slot = slot + 1;
            x = x + 1;
        }
        proof {
            let here = sphere_partial(buffer0, z0, b, fragments@, x as int, y as int);
            let next = sphere_partial(buffer0, z0, b, fragments@, b.x_min as int, y + 1);
            assert(here.0 =~= next.0);
            assert(here.1 =~= next.1);
            assert((y + 1 - b.y_min) * row == (y - b.y_min) * row + row) by (nonlinear_arith);
        }
        y = y + 1;
    }
    proof {
        let all = sphere_drawn(buffer0, z0, b, fragments@);
        assert(buffer@ =~= all.0);
        assert(z_buffer@ =~= all.1);
    }
}

/// A pixel of the rectangle has its slot among the rectangle's fragments.
proof fn lemma_slot_in_range(b: PixelBox, x: int, y: int)
    requires
        b.contains(x, y),
        b.within_screen(),
    ensures
        0 <= b.slot(x, y) < b.area(),
        b.area() <= WIDTH * HEIGHT,
{
    let row = b.row_len();
    let dy = y - b.y_min;
    let h = b.y_max - b.y_min + 1;
    assert(0 <= dy * row && dy * row + row <= h * row) by (nonlinear_arith)
        requires
            0 <= dy < h,
            0 < row,
    ;
    assert(row * h == h * row) by (nonlinear_arith);
    assert(row * h <= 1280 * 720) by (nonlinear_arith)
        requires
            0 < row <= 1280,
            0 < h <= 720,
    ;
}

} // verus!
