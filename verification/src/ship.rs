//! The craft: a wireframe of forty-one corners and seventy-two coloured
//! edges, and the drawing of its edges once the corners have been projected.

use vstd::prelude::*;
use crate::bresenham::line_steps;
use crate::line::{draw_line, lemma_line_depth_tested, line_drawn};
use crate::screen::{depth_tested, lemma_depth_tested_twice, ScreenPoint};

verus! {

/// Colour of the hull.
pub const BODY_COLOR: u32 = 0xD8D8D8;

/// Colour of the four foils.
pub const WING_COLOR: u32 = 0xA0A0A0;

/// Colour of the canopy.
pub const COCKPIT_COLOR: u32 = 0x4080FF;

/// Colour of the engines.
pub const ENGINE_COLOR: u32 = 0xFF3030;

/// Colour of the nose and of the leading edges.
pub const ACCENT_COLOR: u32 = 0xFFFFFF;

/// Number of corners of the craft.
pub const SHIP_VERTEX_COUNT: usize = 41;

/// Number of edges of the craft.
pub const SHIP_EDGE_COUNT: usize = 72;

/// The corners of the craft in its own frame, in hundredths of a unit:
/// nose cone, fuselage, canopy, four foils, four engines.
pub const SHIP_VERTICES: [(i32, i32, i32); 41] = [
    (0, 0, 220),
    (-15, 10, 150),
    (15, 10, 150),
    (-15, -10, 150),
    (15, -10, 150),
    (-20, 15, 80),
    (20, 15, 80),
    (-20, -15, 80),
    (20, -15, 80),
    (-20, 15, -50),
    (20, 15, -50),
    (-20, -15, -50),
    (20, -15, -50),
    (-12, 25, 50),
    (12, 25, 50),
    (-12, 25, 0),
    (12, 25, 0),
    (-30, 30, 30),
    (-160, 80, 0),
    (-160, 80, -70),
    (-30, 30, -60),
    (30, 30, 30),
    (160, 80, 0),
    (160, 80, -70),
    (30, 30, -60),
    (-30, -30, 30),
    (-160, -80, 0),
    (-160, -80, -70),
    (-30, -30, -60),
    (30, -30, 30),
    (160, -80, 0),
    (160, -80, -70),
    (30, -30, -60),
    (-140, 75, -80),
    (-140, 75, -110),
    (140, 75, -80),
    (140, 75, -110),
    (-140, -75, -80),
    (-140, -75, -110),
    (140, -75, -80),
    (140, -75, -110),
];

/// The edges of the craft, each as two corner numbers and a colour, in the
/// order in which they are drawn.
pub const SHIP_EDGES: [(usize, usize, u32); 72] = [
    (0, 1, ACCENT_COLOR),
    (0, 2, ACCENT_COLOR),
    (0, 3, ACCENT_COLOR),
    (0, 4, ACCENT_COLOR),
    (1, 2, BODY_COLOR),
    (2, 4, BODY_COLOR),
    (4, 3, BODY_COLOR),
    (3, 1, BODY_COLOR),
    (1, 5, BODY_COLOR),
    (2, 6, BODY_COLOR),
    (3, 7, BODY_COLOR),
    (4, 8, BODY_COLOR),
    (5, 6, BODY_COLOR),
    (6, 8, BODY_COLOR),
    (8, 7, BODY_COLOR),
    (7, 5, BODY_COLOR),
    (9, 10, BODY_COLOR),
    (10, 12, BODY_COLOR),
    (12, 11, BODY_COLOR),
    (11, 9, BODY_COLOR),
    (5, 9, BODY_COLOR),
    (6, 10, BODY_COLOR),
    (7, 11, BODY_COLOR),
    (8, 12, BODY_COLOR),
    (13, 14, COCKPIT_COLOR),
    (14, 16, COCKPIT_COLOR),
    (16, 15, COCKPIT_COLOR),
    (15, 13, COCKPIT_COLOR),
    (5, 13, COCKPIT_COLOR),
    (6, 14, COCKPIT_COLOR),
    (9, 15, COCKPIT_COLOR),
    (10, 16, COCKPIT_COLOR),
    (17, 18, WING_COLOR),
    (18, 19, WING_COLOR),
    (19, 20, WING_COLOR),
    (20, 17, WING_COLOR),
    (5, 17, WING_COLOR),
    (9, 20, WING_COLOR),
    (18, 19, ACCENT_COLOR),
    (21, 22, WING_COLOR),
    (22, 23, WING_COLOR),
    (23, 24, WING_COLOR),
    (24, 21, WING_COLOR),
    (6, 21, WING_COLOR),
    (10, 24, WING_COLOR),
    (22, 23, ACCENT_COLOR),
    (25, 26, WING_COLOR),
    (26, 27, WING_COLOR),
    (27, 28, WING_COLOR),
    (28, 25, WING_COLOR),
    (7, 25, WING_COLOR),
    (11, 28, WING_COLOR),
    (26, 27, ACCENT_COLOR),
    (29, 30, WING_COLOR),
    (30, 31, WING_COLOR),
    (31, 32, WING_COLOR),
    (32, 29, WING_COLOR),
    (8, 29, WING_COLOR),
    (12, 32, WING_COLOR),
    (30, 31, ACCENT_COLOR),
    (33, 34, ENGINE_COLOR),
    (35, 36, ENGINE_COLOR),
    (37, 38, ENGINE_COLOR),
    (39, 40, ENGINE_COLOR),
    (19, 33, ENGINE_COLOR),
    (19, 34, ENGINE_COLOR),
    (23, 35, ENGINE_COLOR),
    (23, 36, ENGINE_COLOR),
    (27, 37, ENGINE_COLOR),
    (27, 38, ENGINE_COLOR),
    (31, 39, ENGINE_COLOR),
    (31, 40, ENGINE_COLOR),
];

/// Every edge of the craft joins two of its corners.
pub proof fn lemma_ship_edges_in_range(e: int)
    requires
        0 <= e < SHIP_EDGE_COUNT,
    ensures
        SHIP_EDGES[e].0 < SHIP_VERTEX_COUNT,
        SHIP_EDGES[e].1 < SHIP_VERTEX_COUNT,
{
}

/// Whether edge `e` can be drawn: both its corners have a place on the
/// screen plane.
pub open spec fn edge_visible(projected: Seq<Option<ScreenPoint>>, e: int) -> bool {
    &&& 0 <= e < SHIP_EDGE_COUNT
    &&& SHIP_EDGES[e].0 < projected.len()
    &&& SHIP_EDGES[e].1 < projected.len()
    &&& projected[SHIP_EDGES[e].0 as int] is Some
    &&& projected[SHIP_EDGES[e].1 as int] is Some
}

/// Number of steps of edge `e` on the screen plane.
pub open spec fn edge_steps(projected: Seq<Option<ScreenPoint>>, e: int) -> int {
    let a = projected[SHIP_EDGES[e].0 as int]->0;
    let b = projected[SHIP_EDGES[e].1 as int]->0;
    line_steps(a.x as int, a.y as int, b.x as int, b.y as int)
}

/// The buffers after the first `n` edges of the craft have been drawn, in
/// order. An edge with a corner that has no place on the screen plane is
/// left out whole, and so is an edge for which `depths` holds no entry.
pub open spec fn ship_drawn(
    buffer: Seq<u32>,
    z_buffer: Seq<i32>,
    projected: Seq<Option<ScreenPoint>>,
    depths: Seq<Vec<i32>>,
    n: nat,
) -> (Seq<u32>, Seq<i32>)
    decreases n,
{
    if n == 0 {
        (buffer, z_buffer)
    } else {
        let before = ship_drawn(buffer, z_buffer, projected, depths, (n - 1) as nat);
        let e = n - 1;
        if edge_visible(projected, e) && e < depths.len() {
            let a = projected[SHIP_EDGES[e].0 as int]->0;
            let b = projected[SHIP_EDGES[e].1 as int]->0;
            line_drawn(
                before.0,
                before.1,
                a.x as int,
                a.y as int,
                b.x as int,
                b.y as int,
                depths[e]@,
                SHIP_EDGES[e].2,
                (edge_steps(projected, e) + 1) as nat,
            )
        } else {
            before
        }
    }
}

/// Draws the craft. `projected[v]` is the pixel of corner `v`, or `None`
/// where the corner lies behind the viewer; `depths[e][k]` is the depth of
/// edge `e` after `k` steps. Each edge whose two corners both have a pixel
/// is drawn as a depth-tested line in its own colour; the others are
/// skipped, and so is whatever `projected` or `depths` does not reach.
pub fn render_spaceship(
    buffer: &mut Vec<u32>,
    z_buffer: &mut Vec<i32>,
    projected: &Vec<Option<ScreenPoint>>,
    depths: &Vec<Vec<i32>>,
)
    ensures
        (final(buffer)@, final(z_buffer)@) == ship_drawn(
            old(buffer)@,
            old(z_buffer)@,
            projected@,
            depths@,
            SHIP_EDGE_COUNT as nat,
        ),
        depth_tested(old(buffer)@, old(z_buffer)@, (final(buffer)@, final(z_buffer)@)),
{
    proof {
        lemma_ship_depth_tested(buffer@, z_buffer@, projected@, depths@, SHIP_EDGE_COUNT as nat);
    }
    let mut e: usize = 0;
    while e < SHIP_EDGE_COUNT
        invariant
            e <= SHIP_EDGE_COUNT,
            (buffer@, z_buffer@) == ship_drawn(
                old(buffer)@,
                old(z_buffer)@,
                projected@,
                depths@,
                e as nat,
            ),
        decreases SHIP_EDGE_COUNT - e,
    {
        let edge = SHIP_EDGES[e];
        if edge.0 < projected.len() && edge.1 < projected.len() && e < depths.len() {
            match (projected[edge.0], projected[edge.1]) {
                (Some(a), Some(b)) => {
                    assert(edge_visible(projected@, e as int));
                    draw_line(buffer, z_buffer, a.x, a.y, b.x, b.y, &depths[e], edge.2);
                },
                _ => {},
            }
        }
        e = e + 1;
    }
}

/// The craft is depth-tested drawing.
pub proof fn lemma_ship_depth_tested(
    buffer: Seq<u32>,
    z_buffer: Seq<i32>,
    projected: Seq<Option<ScreenPoint>>,
    depths: Seq<Vec<i32>>,
    n: nat,
)
    ensures
        depth_tested(buffer, z_buffer, ship_drawn(buffer, z_buffer, projected, depths, n)),
    decreases n,
{
    if n > 0 {
        let before = ship_drawn(buffer, z_buffer, projected, depths, (n - 1) as nat);
        let e = n - 1;
        lemma_ship_depth_tested(buffer, z_buffer, projected, depths, (n - 1) as nat);
        if edge_visible(projected, e) && e < depths.len() {
            let a = projected[SHIP_EDGES[e].0 as int]->0;
            let b = projected[SHIP_EDGES[e].1 as int]->0;
            lemma_line_depth_tested(
                before.0,
                before.1,
                a.x as int,
                a.y as int,
                b.x as int,
                b.y as int,
                depths[e]@,
                SHIP_EDGES[e].2,
                (edge_steps(projected, e) + 1) as nat,
            );
            lemma_depth_tested_twice(
                buffer,
                z_buffer,
                before,
                ship_drawn(buffer, z_buffer, projected, depths, n),
            );
        }
    }
}

} // verus!
