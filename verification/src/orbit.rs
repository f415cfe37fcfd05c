//! Orbit rings: isolated pixels, drawn without a depth test.

use vstd::prelude::*;
use crate::screen::{on_screen, pixel_index, ScreenPoint, HEIGHT, WIDTH};

verus! {

/// Number of points that make up one ring.
pub const ORBIT_SEGMENTS: usize = 150;

/// Whether one of the points falls on buffer entry `i`: it has a pixel, the
/// pixel lies on the screen, and `i` is its index.
pub open spec fn ring_covers(points: Seq<Option<ScreenPoint>>, i: int) -> bool {
    exists|j: int|
        0 <= j < points.len() && (#[trigger] points[j]) is Some && on_screen(
            points[j]->0.x as int,
            points[j]->0.y as int,
        ) && pixel_index(points[j]->0.x as int, points[j]->0.y as int) == i
}

/// Draws the points of a ring. `points[j]` is the pixel of the ring's point
/// `j`, or `None` where the point lies behind the viewer. Every point that
/// has a pixel on the screen, and inside the buffer, takes the colour;
/// nothing else changes.
pub fn render_orbit(buffer: &mut Vec<u32>, points: &Vec<Option<ScreenPoint>>, color: u32)
    ensures
        final(buffer)@.len() == old(buffer)@.len(),
        forall|i: int|
            0 <= i < old(buffer)@.len() ==> final(buffer)@[i] == if ring_covers(points@, i) {
                color
            } else {
                old(buffer)@[i]
            },
{
    let mut j: usize = 0;
    while j < points.len()
        invariant
            j <= points@.len(),
            buffer@.len() == old(buffer)@.len(),
            forall|i: int|
                0 <= i < buffer@.len() ==> buffer@[i] == if ring_covers(
                    points@.subrange(0, j as int),
                    i,
                ) {
                    color
                } else {
                    old(buffer)@[i]
                },
        decreases points@.len() - j,
    {
        let ghost done = points@.subrange(0, j as int);
        let ghost next = points@.subrange(0, j + 1);
        let mut hit: Ghost<int> = Ghost(-1);
        match points[j] {
            Some(p) => {
                if p.x >= 0 && p.x < WIDTH as i32 && p.y >= 0 && p.y < HEIGHT as i32 {
                    let idx: usize = p.y as usize * WIDTH + p.x as usize;
                    if idx < buffer.len() {
                        buffer[idx] = color;
                    }
                    proof {
                        hit@ = idx as int;
                    }
                }
            },
            None => {},
        }
        proof {
            assert forall|i: int| 0 <= i < buffer@.len() implies buffer@[i] == if ring_covers(
                next,
                i,
            ) {
                color
            } else {
                old(buffer)@[i]
            } by {
                if ring_covers(done, i) {
                    let w = choose|w: int|
                        0 <= w < done.len() && (#[trigger] done[w]) is Some && on_screen(
                            done[w]->0.x as int,
                            done[w]->0.y as int,
                        ) && pixel_index(done[w]->0.x as int, done[w]->0.y as int) == i;
                    assert(next[w] == done[w]);
                }
                if i == hit@ {
                    assert(next[j as int] == points@[j as int]);
                }
                if ring_covers(next, i) {
                    let w = choose|w: int|
                        0 <= w < next.len() && (#[trigger] next[w]) is Some && on_screen(
                            next[w]->0.x as int,
                            next[w]->0.y as int,
                        ) && pixel_index(next[w]->0.x as int, next[w]->0.y as int) == i;
                    if w < j {
                        assert(done[w] == next[w]);
                    }
                }
            }
        }
        j = j + 1;
    }
    assert(points@.subrange(0, j as int) =~= points@);
}

} // verus!
