//! Lines, triangle outlines and mesh outlines on the still-image canvas.

use vstd::prelude::*;
use crate::bresenham::{line_point, line_steps, on_line, LineWalk};
use crate::color::Color;
use crate::framebuffer::{lemma_index_in_range, Framebuffer, SCREEN_HEIGHT, SCREEN_WIDTH};
use crate::obj::Face;
use crate::screen::ScreenPoint;

verus! {

/// Whether a line may colour the pixel `(x, y)` of a canvas: the pixel lies
/// on the canvas and within the still-image size.
pub open spec fn drawable(fb: &Framebuffer, x: int, y: int) -> bool {
    &&& 0 <= x < fb.width()
    &&& 0 <= y < fb.height()
    &&& x < SCREEN_WIDTH
    &&& y < SCREEN_HEIGHT
}

/// Whether one of the first `n` pixels of the line is `(x, y)`.
spec fn reached(x0: int, y0: int, x1: int, y1: int, n: int, x: int, y: int) -> bool {
    exists|k: int| 0 <= k < n && #[trigger] line_point(x0, y0, x1, y1, k) == (x, y)
}

/// Whether `after` is `before` with the line from `(x0, y0)` to `(x1, y1)`
/// drawn over it: the size is the same, every drawable pixel of the line
/// has the colour, and every other pixel is as it was.
pub open spec fn line_painted(
    before: &Framebuffer,
    after: &Framebuffer,
    x0: int,
    y0: int,
    x1: int,
    y1: int,
    color: Color,
) -> bool {
    &&& after.wf()
    &&& after.width() == before.width()
    &&& after.height() == before.height()
    &&& forall|x: int, y: int|
        0 <= x < before.width() && 0 <= y < before.height() ==> #[trigger] after.at(x, y) == (
        if drawable(before, x, y) && on_line(x0, y0, x1, y1, x, y) {
            color
        } else {
            before.at(x, y)
        })
}

/// Draws the line from `(x0, y0)` to `(x1, y1)`: every pixel of the line
/// that lies on the canvas, and within the still-image size, takes the
/// colour; nothing else changes.
pub fn line(framebuffer: &mut Framebuffer, x0: i32, y0: i32, x1: i32, y1: i32, color: Color)
    requires
        old(framebuffer).wf(),
    ensures
        line_painted(
            old(framebuffer),
            final(framebuffer),
            x0 as int,
            y0 as int,
            x1 as int,
            y1 as int,
            color,
        ),
{
    let mut walk = LineWalk::new(x0, y0, x1, y1);
    loop
        invariant_except_break
            walk.wf(),
            walk.origin() == (x0 as int, y0 as int),
            walk.target() == (x1 as int, y1 as int),
            painted_so_far(
                old(framebuffer),
                framebuffer,
                x0 as int,
                y0 as int,
                x1 as int,
                y1 as int,
                walk.index(),
                color,
            ),
        ensures
            painted_so_far(
                old(framebuffer),
                framebuffer,
                x0 as int,
                y0 as int,
                x1 as int,
                y1 as int,
                line_steps(x0 as int, y0 as int, x1 as int, y1 as int) + 1,
                color,
            ),
        decreases walk.steps() - walk.index(),
    {
        let p = walk.position();
        let ghost k = walk.index();
        let ghost before = *framebuffer;
        if p.0 >= 0 && p.0 < SCREEN_WIDTH as i32 && p.1 >= 0 && p.1 < SCREEN_HEIGHT as i32 {
            framebuffer.point(p.0 as usize, p.1 as usize, color);
        }
        proof {
            let w = before.width() as int;
            let h = before.height() as int;
            let px = p.0 as int;
            let py = p.1 as int;
            assert forall|x: int, y: int| 0 <= x < w && 0 <= y < h implies #[trigger] framebuffer.at(
                x,
                y,
            ) == painted_pixel(
                old(framebuffer),
                x0 as int,
                y0 as int,
                x1 as int,
                y1 as int,
                k + 1,
                color,
                x,
                y,
            ) by {
                lemma_index_in_range(x, y, w, h);
                if 0 <= px < w && 0 <= py < h {
                    lemma_index_in_range(px, py, w, h);
                }
                assert(before.at(x, y) == painted_pixel(
                    old(framebuffer),
                    x0 as int,
                    y0 as int,
                    x1 as int,
                    y1 as int,
                    k,
                    color,
                    x,
                    y,
                ));
                lemma_reached_next(x0 as int, y0 as int, x1 as int, y1 as int, k, x, y);
            }
        }
        if walk.finished() {
            break;
        }
        walk.advance();
    }
    proof {
        assert forall|x: int, y: int|
            0 <= x < framebuffer.width() && 0 <= y
                < framebuffer.height() implies #[trigger] reached(
            x0 as int,
            y0 as int,
            x1 as int,
            y1 as int,
            line_steps(x0 as int, y0 as int, x1 as int, y1 as int) + 1,
            x,
            y,
        ) == on_line(x0 as int, y0 as int, x1 as int, y1 as int, x, y) by {
            lemma_reached_all(x0 as int, y0 as int, x1 as int, y1 as int, x, y);
        }
    }
}

/// The colour of pixel `(x, y)` once the first `n` pixels of the line have
/// been drawn.
spec fn painted_pixel(
    before: &Framebuffer,
    x0: int,
    y0: int,
    x1: int,
    y1: int,
    n: int,
    color: Color,
    x: int,
    y: int,
) -> Color {
    if drawable(before, x, y) && reached(x0, y0, x1, y1, n, x, y) {
        color
    } else {
        before.at(x, y)
    }
}

/// Whether `now` is `before` with the first `n` pixels of the line drawn
/// over it.
spec fn painted_so_far(
    before: &Framebuffer,
    now: &Framebuffer,
    x0: int,
    y0: int,
    x1: int,
    y1: int,
    n: int,
    color: Color,
) -> bool {
    &&& now.wf()
    &&& now.width() == before.width()
    &&& now.height() == before.height()
    &&& forall|x: int, y: int|
        0 <= x < before.width() && 0 <= y < before.height() ==> #[trigger] now.at(x, y)
            == painted_pixel(before, x0, y0, x1, y1, n, color, x, y)
}

/// One more pixel of the line adds that pixel to those reached, and no
/// other.
proof fn lemma_reached_next(x0: int, y0: int, x1: int, y1: int, n: int, x: int, y: int)
    requires
        0 <= n,
    ensures
        reached(x0, y0, x1, y1, n + 1, x, y) == (reached(x0, y0, x1, y1, n, x, y) || line_point(
            x0,
            y0,
            x1,
            y1,
            n,
        ) == (x, y)),
{
    if reached(x0, y0, x1, y1, n, x, y) {
        let k = choose|k: int| 0 <= k < n && #[trigger] line_point(x0, y0, x1, y1, k) == (x, y);
        assert(0 <= k < n + 1 && line_point(x0, y0, x1, y1, k) == (x, y));
    }
    if line_point(x0, y0, x1, y1, n) == (x, y) {
        assert(0 <= n < n + 1 && line_point(x0, y0, x1, y1, n) == (x, y));
    }
}

/// The pixels reached by the whole walk are the pixels of the line.
proof fn lemma_reached_all(x0: int, y0: int, x1: int, y1: int, x: int, y: int)
    ensures
        reached(x0, y0, x1, y1, line_steps(x0, y0, x1, y1) + 1, x, y) == on_line(
            x0,
            y0,
            x1,
            y1,
            x,
            y,
        ),
{
    let n = line_steps(x0, y0, x1, y1) + 1;
    if reached(x0, y0, x1, y1, n, x, y) {
        let k = choose|k: int| 0 <= k < n && #[trigger] line_point(x0, y0, x1, y1, k) == (x, y);
        assert(0 <= k <= line_steps(x0, y0, x1, y1) && line_point(x0, y0, x1, y1, k) == (x, y));
    }
    if on_line(x0, y0, x1, y1, x, y) {
        let k = choose|k: int|
            0 <= k <= line_steps(x0, y0, x1, y1) && #[trigger] line_point(x0, y0, x1, y1, k) == (
                x,
                y,
            );
        assert(0 <= k < n && line_point(x0, y0, x1, y1, k) == (x, y));
    }
}

/// Whether `(x, y)` lies on one of the three sides of a triangle.
pub open spec fn on_outline(v1: ScreenPoint, v2: ScreenPoint, v3: ScreenPoint, x: int, y: int) -> bool {
    ||| on_line(v1.x as int, v1.y as int, v2.x as int, v2.y as int, x, y)
    ||| on_line(v2.x as int, v2.y as int, v3.x as int, v3.y as int, x, y)
    ||| on_line(v3.x as int, v3.y as int, v1.x as int, v1.y as int, x, y)
}

/// Whether `after` is `before` with the outline of a triangle drawn over
/// it.
pub open spec fn outline_painted(
    before: &Framebuffer,
    after: &Framebuffer,
    v1: ScreenPoint,
    v2: ScreenPoint,
    v3: ScreenPoint,
    color: Color,
) -> bool {
    &&& after.wf()
    &&& after.width() == before.width()
    &&& after.height() == before.height()
    &&& forall|x: int, y: int|
        0 <= x < before.width() && 0 <= y < before.height() ==> #[trigger] after.at(x, y) == (
        if drawable(before, x, y) && on_outline(v1, v2, v3, x, y) {
            color
        } else {
            before.at(x, y)
        })
}

/// Draws the three sides of a triangle, not its inside.
pub fn triangle(
    framebuffer: &mut Framebuffer,
    v1: &ScreenPoint,
    v2: &ScreenPoint,
    v3: &ScreenPoint,
    color: Color,
)
    requires
        old(framebuffer).wf(),
    ensures
        outline_painted(old(framebuffer), final(framebuffer), *v1, *v2, *v3, color),
{
    line(framebuffer, v1.x, v1.y, v2.x, v2.y, color);
    line(framebuffer, v2.x, v2.y, v3.x, v3.y, color);
    line(framebuffer, v3.x, v3.y, v1.x, v1.y, color);
}

/// Whether `(x, y)` lies on the outline of triangle `k` of a face. A face
/// is cut into triangles as a fan: triangle `k` joins the face's first
/// corner with its corners `k` and `k + 1`. A triangle with a corner index
/// that names no corner has no outline.
pub open spec fn on_fan_triangle(
    corners: Seq<ScreenPoint>,
    face: Seq<usize>,
    k: int,
    x: int,
    y: int,
) -> bool {
    &&& 1 <= k < face.len() - 1
    &&& face[0] < corners.len()
    &&& face[k] < corners.len()
    &&& face[k + 1] < corners.len()
    &&& on_outline(
        corners[face[0] as int],
        corners[face[k] as int],
        corners[face[k + 1] as int],
        x,
        y,
    )
}

/// Whether `(x, y)` lies on one of the triangles of a face that come
/// before triangle `n`.
pub open spec fn on_face(corners: Seq<ScreenPoint>, face: Seq<usize>, n: int, x: int, y: int) -> bool {
    exists|k: int| k < n && #[trigger] on_fan_triangle(corners, face, k, x, y)
}

/// Whether `(x, y)` lies on one of the first `n` faces.
pub open spec fn on_faces(corners: Seq<ScreenPoint>, faces: Seq<Face>, n: int, x: int, y: int) -> bool {
    exists|f: int|
        0 <= f < n && on_face(
            corners,
            (#[trigger] faces[f]).vertex_indices@,
            faces[f].vertex_indices@.len() as int,
            x,
            y,
        )
}

/// Whether `after` is `before` with the outlines of all faces drawn over
/// it.
pub open spec fn mesh_painted(
    before: &Framebuffer,
    after: &Framebuffer,
    corners: Seq<ScreenPoint>,
    faces: Seq<Face>,
    color: Color,
) -> bool {
    &&& after.wf()
    &&& after.width() == before.width()
    &&& after.height() == before.height()
    &&& forall|x: int, y: int|
        0 <= x < before.width() && 0 <= y < before.height() ==> #[trigger] after.at(x, y) == (
        if drawable(before, x, y) && on_faces(corners, faces, faces.len() as int, x, y) {
            color
        } else {
            before.at(x, y)
        })
}

/// Whether `now` is `before` with the first `n` faces, and the triangles
/// of face `n` that come before triangle `k`, drawn over it.
spec fn faces_painted(
    before: &Framebuffer,
    now: &Framebuffer,
    corners: Seq<ScreenPoint>,
    faces: Seq<Face>,
    n: int,
    k: int,
    color: Color,
) -> bool {
    &&& now.wf()
    &&& now.width() == before.width()
    &&& now.height() == before.height()
    &&& forall|x: int, y: int|
        0 <= x < before.width() && 0 <= y < before.height() ==> #[trigger] now.at(x, y) == (
        if drawable(before, x, y) && (on_faces(corners, faces, n, x, y) || (0 <= n < faces.len()
            && on_face(corners, faces[n].vertex_indices@, k, x, y))) {
            color
        } else {
            before.at(x, y)
        })
}

/// Draws the outlines of the faces of a mesh whose corners have been
/// placed on the canvas. Each face is drawn as the triangles of its fan; a
/// triangle with a corner index that names no corner is left out.
pub fn draw_faces(
    framebuffer: &mut Framebuffer,
    corners: &Vec<ScreenPoint>,
    faces: &Vec<Face>,
    color: Color,
)
    requires
        old(framebuffer).wf(),
    ensures
        mesh_painted(old(framebuffer), final(framebuffer), corners@, faces@, color),
{
    let mut f: usize = 0;
    while f < faces.len()
        invariant
            f <= faces@.len(),
            faces_painted(old(framebuffer), framebuffer, corners@, faces@, f as int, 0, color),
        decreases faces@.len() - f,
    {
        let face = &faces[f].vertex_indices;
        let mut k: usize = 1;
        while k < face.len() && k + 1 < face.len()
            invariant
                f < faces@.len(),
                face@ == faces@[f as int].vertex_indices@,
                1 <= k,
                faces_painted(
                    old(framebuffer),
                    framebuffer,
                    corners@,
                    faces@,
                    f as int,
                    k as int,
                    color,
                ),
            decreases face@.len() - k,
        {
            let a: usize = face[0];
            let b: usize = face[k];
            let c: usize = face[k + 1];
            let ghost before = *framebuffer;
            if a < corners.len() && b < corners.len() && c < corners.len() {
                triangle(framebuffer, &corners[a], &corners[b], &corners[c], color);
            }
            proof {
                assert forall|x: int, y: int|
                    0 <= x < before.width() && 0 <= y
                        < before.height() implies #[trigger] framebuffer.at(x, y) == (if drawable(
                    old(framebuffer),
                    x,
                    y,
                ) && (on_faces(corners@, faces@, f as int, x, y) || on_face(
                    corners@,
                    face@,
                    k + 1,
                    x,
                    y,
                )) {
                    color
                } else {
                    old(framebuffer).at(x, y)
                }) by {
                    lemma_on_face_next(corners@, face@, k as int, x, y);
                    assert(before.at(x, y) == (if drawable(old(framebuffer), x, y) && (on_faces(
                        corners@,
                        faces@,
                        f as int,
                        x,
                        y,
                    ) || on_face(corners@, face@, k as int, x, y)) {
                        color
                    } else {
                        old(framebuffer).at(x, y)
                    }));
                }
            }
            k = k + 1;
        }
        proof {
            assert forall|x: int, y: int|
                0 <= x < framebuffer.width() && 0 <= y
                    < framebuffer.height() implies #[trigger] framebuffer.at(x, y) == (if drawable(
                old(framebuffer),
                x,
                y,
            ) && (on_faces(corners@, faces@, f + 1, x, y) || (0 <= f + 1 < faces@.len() && on_face(
                corners@,
                faces@[f + 1].vertex_indices@,
                0,
                x,
                y,
            ))) {
                color
            } else {
                old(framebuffer).at(x, y)
            }) by {
                lemma_on_face_whole(corners@, face@, k as int, x, y);
                lemma_on_faces_next(corners@, faces@, f as int, x, y);
                if f + 1 < faces@.len() {
                    lemma_on_face_none(corners@, faces@[f + 1].vertex_indices@, x, y);
                }
            }
        }
        f = f + 1;
    }
}

/// No triangle of a fan comes before triangle one.
proof fn lemma_on_face_none(corners: Seq<ScreenPoint>, face: Seq<usize>, x: int, y: int)
    ensures
        !on_face(corners, face, 0, x, y),
        !on_face(corners, face, 1, x, y),
{
}

/// One more triangle of the fan adds its outline, and nothing else.
proof fn lemma_on_face_next(corners: Seq<ScreenPoint>, face: Seq<usize>, n: int, x: int, y: int)
    ensures
        on_face(corners, face, n + 1, x, y) == (on_face(corners, face, n, x, y) || on_fan_triangle(
            corners,
            face,
            n,
            x,
            y,
        )),
{
    if on_face(corners, face, n, x, y) {
        let k = choose|k: int| k < n && #[trigger] on_fan_triangle(corners, face, k, x, y);
        assert(k < n + 1 && on_fan_triangle(corners, face, k, x, y));
    }
    if on_fan_triangle(corners, face, n, x, y) {
        assert(n < n + 1 && on_fan_triangle(corners, face, n, x, y));
    }
}

/// Past the last triangle of a fan there is nothing more to it.
proof fn lemma_on_face_whole(corners: Seq<ScreenPoint>, face: Seq<usize>, n: int, x: int, y: int)
    requires
        n >= face.len() - 1,
    ensures
        on_face(corners, face, n, x, y) == on_face(corners, face, face.len() as int, x, y),
{
    if on_face(corners, face, n, x, y) {
        let k = choose|k: int| k < n && #[trigger] on_fan_triangle(corners, face, k, x, y);
        assert(k < face.len() && on_fan_triangle(corners, face, k, x, y));
    }
    if on_face(corners, face, face.len() as int, x, y) {
        let k = choose|k: int| k < face.len() && #[trigger] on_fan_triangle(corners, face, k, x, y);
        assert(k < n && on_fan_triangle(corners, face, k, x, y));
    }
}

/// One more face adds its triangles, and nothing else.
proof fn lemma_on_faces_next(corners: Seq<ScreenPoint>, faces: Seq<Face>, n: int, x: int, y: int)
    requires
        0 <= n < faces.len(),
    ensures
        on_faces(corners, faces, n + 1, x, y) == (on_faces(corners, faces, n, x, y) || on_face(
            corners,
            faces[n].vertex_indices@,
            faces[n].vertex_indices@.len() as int,
            x,
            y,
        )),
{
    if on_faces(corners, faces, n, x, y) {
        let f = choose|f: int|
            0 <= f < n && on_face(
                corners,
                (#[trigger] faces[f]).vertex_indices@,
                faces[f].vertex_indices@.len() as int,
                x,
                y,
            );
        assert(0 <= f < n + 1);
    }
    if on_faces(corners, faces, n + 1, x, y) {
        let f = choose|f: int|
            0 <= f < n + 1 && on_face(
                corners,
                (#[trigger] faces[f]).vertex_indices@,
                faces[f].vertex_indices@.len() as int,
                x,
                y,
            );
        if f < n {
            assert(on_faces(corners, faces, n, x, y));
        }
    }
    if on_face(corners, faces[n].vertex_indices@, faces[n].vertex_indices@.len() as int, x, y) {
        assert(0 <= n < n + 1);
    }
}

} // verus!
