//! The pixels of a straight line between two grid points.
//!
//! The line is described in closed form: along the axis on which the two
//! ends lie further apart every step moves one pixel, and the other
//! coordinate follows at the nearest whole offset, a tie going to the lower
//! one. [`LineWalk`] steps through those pixels with additions only.

use vstd::prelude::*;
use vstd::arithmetic::div_mod::lemma_fundamental_div_mod;
use vstd::arithmetic::div_mod::lemma_fundamental_div_mod_converse;

verus! {

/// Distance between two coordinates.
pub open spec fn span(a: int, b: int) -> int {
    if a < b {
        b - a
    } else {
        a - b
    }
}

/// The coordinate `k` pixels away from `a`, on the side of `b`.
pub open spec fn toward(a: int, b: int, k: int) -> int {
    if a < b {
        a + k
    } else {
        a - k
    }
}

/// Number of steps from the first pixel of a line to its last.
pub open spec fn line_steps(x0: int, y0: int, x1: int, y1: int) -> int {
    if span(x0, x1) >= span(y0, y1) {
        span(x0, x1)
    } else {
        span(y0, y1)
    }
}

/// Offset on the short axis after `k` steps on the long one: `k * minor /
/// major` rounded to the nearest whole number, a half rounding down.
pub open spec fn minor_offset(major: int, minor: int, k: int) -> int {
    if major > 0 {
        (2 * minor * k + major - 1) / (2 * major)
    } else {
        0
    }
}

/// The pixel reached after `k` steps on the line from `(x0, y0)` to
/// `(x1, y1)`.
pub open spec fn line_point(x0: int, y0: int, x1: int, y1: int, k: int) -> (int, int) {
    let dx = span(x0, x1);
    let dy = span(y0, y1);
    if dx >= dy {
        (toward(x0, x1, k), toward(y0, y1, minor_offset(dx, dy, k)))
    } else {
        (toward(x0, x1, minor_offset(dy, dx, k)), toward(y0, y1, k))
    }
}

/// Whether the line from `(x0, y0)` to `(x1, y1)` passes through `(x, y)`.
pub open spec fn on_line(x0: int, y0: int, x1: int, y1: int, x: int, y: int) -> bool {
    exists|k: int|
        0 <= k <= line_steps(x0, y0, x1, y1) && #[trigger] line_point(x0, y0, x1, y1, k) == (x, y)
}

/// The error term that the stepping rule carries after `k` steps: how far,
/// in units of `1 / major`, the short-axis offset stands above the exact
/// line, shifted so that a step on the short axis is due when twice the
/// term falls below `major`.
pub open spec fn balance(major: int, minor: int, k: int) -> int {
    major * (minor_offset(major, minor, k) + 1) - minor * (k + 1)
}

/// How the short-axis offset and the error term move from step `k` to the
/// next.
pub proof fn lemma_offset_step(major: int, minor: int, k: int)
    requires
        0 <= minor <= major,
        0 < major,
        0 <= k,
    ensures
        major - 2 * minor <= 2 * balance(major, minor, k) < 3 * major - 2 * minor,
        -minor < 2 * balance(major, minor, k),
        minor_offset(major, minor, k + 1) == minor_offset(major, minor, k) + (if 2 * balance(
            major,
            minor,
            k,
        ) < major {
            1int
        } else {
            0int
        }),
        balance(major, minor, k + 1) == balance(major, minor, k) - minor + (if 2 * balance(
            major,
            minor,
            k,
        ) < major {
            major
        } else {
            0int
        }),
{
    let d = 2 * major;
    let n = 2 * minor * k + major - 1;
    let m = n / d;
    let r = n % d;
    lemma_fundamental_div_mod(n, d);
    assert(n == d * m + r);
    assert(d * m == 2 * (major * m)) by (nonlinear_arith)
        requires
            d == 2 * major,
    ;
    assert(2 * minor * k == 2 * (minor * k)) by (nonlinear_arith);
    let e = balance(major, minor, k);
    assert(major * (m + 1) == major * m + major) by (nonlinear_arith);
    assert(minor * (k + 1) == minor * k + minor) by (nonlinear_arith);
    assert(2 * e == 3 * major - 2 * minor - 1 - r);
    if major == minor {
        assert(n == k * d + (major - 1)) by (nonlinear_arith)
            requires
                n == 2 * minor * k + major - 1,
                d == 2 * major,
                major == minor,
        ;
        lemma_fundamental_div_mod_converse(n, d, k, major - 1);
    }
    let n2 = 2 * minor * (k + 1) + major - 1;
    assert(2 * minor * (k + 1) == 2 * (minor * k) + 2 * minor) by (nonlinear_arith);
    assert(n2 == n + 2 * minor);
    if 2 * e < major {
        let r2 = r + 2 * minor - d;
        assert(n2 == (m + 1) * d + r2) by (nonlinear_arith)
            requires
                n2 == n + 2 * minor,
                n == d * m + r,
                r2 == r + 2 * minor - d,
        ;
        lemma_fundamental_div_mod_converse(n2, d, m + 1, r2);
        assert(major * (m + 2) == major * m + 2 * major) by (nonlinear_arith);
        assert(minor * (k + 2) == minor * k + 2 * minor) by (nonlinear_arith);
    } else {
        let r2 = r + 2 * minor;
        assert(n2 == m * d + r2) by (nonlinear_arith)
            requires
                n2 == n + 2 * minor,
                n == d * m + r,
                r2 == r + 2 * minor,
        ;
        lemma_fundamental_div_mod_converse(n2, d, m, r2);
        assert(minor * (k + 2) == minor * k + 2 * minor) by (nonlinear_arith);
    }
}

/// The short-axis offset starts at zero, stays between zero and `minor`
/// and no greater than the step count, and reaches `minor` after `major`
/// steps; the error term starts at `major - minor`.
pub proof fn lemma_offset_range(major: int, minor: int, k: int)
    requires
        0 <= minor <= major,
        0 <= k <= major,
    ensures
        0 <= minor_offset(major, minor, k) <= minor,
        minor_offset(major, minor, k) <= k,
        minor_offset(major, minor, 0) == 0,
        minor_offset(major, minor, major) == minor,
        balance(major, minor, 0) == major - minor,
{
    assert(major * (0 + 1) - minor * (0 + 1) == major - minor) by (nonlinear_arith);
    if major > 0 {
        let d = 2 * major;
        lemma_fundamental_div_mod_converse(major - 1, d, 0, major - 1);
        assert(2 * minor * major + major - 1 == minor * d + (major - 1)) by (nonlinear_arith)
            requires
                d == 2 * major,
        ;
        lemma_fundamental_div_mod_converse(2 * minor * major + major - 1, d, minor, major - 1);
        let n = 2 * minor * k + major - 1;
        let m = n / d;
        let r = n % d;
        lemma_fundamental_div_mod(n, d);
        assert(0 <= 2 * minor * k <= 2 * minor * major) by (nonlinear_arith)
            requires
                0 <= minor,
                0 <= k <= major,
        ;
        assert(2 * minor * k <= 2 * major * k) by (nonlinear_arith)
            requires
                0 <= minor <= major,
                0 <= k,
        ;
        assert(0 <= m <= minor && m <= k) by (nonlinear_arith)
            requires
                n == d * m + r,
                0 <= r < d,
                d == 2 * major,
                major > 0,
                major - 1 <= n <= 2 * minor * major + major - 1,
                n <= 2 * major * k + major - 1,
        ;
    }
}

/// The short-axis offset is the whole number nearest to `k * minor /
/// major`: it lies no more than half a pixel from the exact line, and at
/// exactly half a pixel it is the lower of the two.
pub proof fn lemma_offset_nearest(major: int, minor: int, k: int)
    requires
        0 <= minor <= major,
        0 < major,
        0 <= k,
    ensures
        -major <= 2 * (major * minor_offset(major, minor, k) - minor * k) < major,
{
    lemma_offset_step(major, minor, k);
    let m = minor_offset(major, minor, k);
    assert(major * (m + 1) == major * m + major) by (nonlinear_arith);
    assert(minor * (k + 1) == minor * k + minor) by (nonlinear_arith);
}

/// Only one whole number lies that near to `k * minor / major`, so the
/// bounds of [`lemma_offset_nearest`] tell what the offset is.
pub proof fn lemma_offset_unique(major: int, minor: int, k: int, m: int)
    requires
        0 <= minor <= major,
        0 < major,
        0 <= k,
        -major <= 2 * (major * m - minor * k) < major,
    ensures
        m == minor_offset(major, minor, k),
{
    lemma_offset_nearest(major, minor, k);
    let o = minor_offset(major, minor, k);
    assert(m == o) by (nonlinear_arith)
        requires
            0 < major,
            -major <= 2 * (major * m - minor * k) < major,
            -major <= 2 * (major * o - minor * k) < major,
    ;
}

/// A line starts at its first end and, after `line_steps` steps, stands on
/// its second.
pub proof fn lemma_line_ends(x0: int, y0: int, x1: int, y1: int)
    ensures
        line_point(x0, y0, x1, y1, 0) == (x0, y0),
        line_point(x0, y0, x1, y1, line_steps(x0, y0, x1, y1)) == (x1, y1),
{
    let dx = span(x0, x1);
    let dy = span(y0, y1);
    if dx >= dy {
        lemma_offset_range(dx, dy, 0);
        lemma_offset_range(dx, dy, dx);
    } else {
        lemma_offset_range(dy, dx, 0);
        lemma_offset_range(dy, dx, dy);
    }
}

/// Two different steps of a line reach two different pixels.
pub proof fn lemma_line_points_distinct(x0: int, y0: int, x1: int, y1: int, j: int, k: int)
    requires
        j != k,
    ensures
        line_point(x0, y0, x1, y1, j) != line_point(x0, y0, x1, y1, k),
{
}

/// A walk along the pixels of a line, one step at a time.
pub struct LineWalk {
    x0: i32,
    y0: i32,
    x1: i32,
    y1: i32,
    x: i32,
    y: i32,
    dx: i64,
    dy: i64,
    err: i64,
    step: u32,
}

impl LineWalk {
    /// First pixel of the line.
    pub closed spec fn origin(&self) -> (int, int) {
        (self.x0 as int, self.y0 as int)
    }

    /// Last pixel of the line.
    pub closed spec fn target(&self) -> (int, int) {
        (self.x1 as int, self.y1 as int)
    }

    /// Number of steps taken so far.
    pub closed spec fn index(&self) -> int {
        self.step as int
    }

    /// Number of steps between the first pixel and the last.
    pub open spec fn steps(&self) -> int {
        line_steps(self.origin().0, self.origin().1, self.target().0, self.target().1)
    }

    /// The fields agree with the closed form of the line at `index()`.
    pub closed spec fn wf(&self) -> bool {
        &&& self.dx == span(self.x0 as int, self.x1 as int)
        &&& self.dy == span(self.y0 as int, self.y1 as int)
        &&& 0 <= self.step <= line_steps(
            self.x0 as int,
            self.y0 as int,
            self.x1 as int,
            self.y1 as int,
        )
        &&& (self.x as int, self.y as int) == line_point(
            self.x0 as int,
            self.y0 as int,
            self.x1 as int,
            self.y1 as int,
            self.step as int,
        )
        &&& self.err == if self.dx >= self.dy {
            balance(self.dx as int, self.dy as int, self.step as int)
        } else {
            -balance(self.dy as int, self.dx as int, self.step as int)
        }
    }

    /// Starts a walk at `(x0, y0)` that will end at `(x1, y1)`.
    pub fn new(x0: i32, y0: i32, x1: i32, y1: i32) -> (w: LineWalk)
        ensures
            w.wf(),
            w.origin() == (x0 as int, y0 as int),
            w.target() == (x1 as int, y1 as int),
            w.index() == 0,
    {
        let dx: i64 = if x0 < x1 {
            x1 as i64 - x0 as i64
        } else {
            x0 as i64 - x1 as i64
        };
        let dy: i64 = if y0 < y1 {
            y1 as i64 - y0 as i64
        } else {
            y0 as i64 - y1 as i64
        };
        proof {
            if dx >= dy {
                lemma_offset_range(dx as int, dy as int, 0);
            } else {
                lemma_offset_range(dy as int, dx as int, 0);
            }
        }
        LineWalk { x0, y0, x1, y1, x: x0, y: y0, dx, dy, err: dx - dy, step: 0 }
    }

    /// The pixel on which the walk stands.
    pub fn position(&self) -> (p: (i32, i32))
        requires
            self.wf(),
        ensures
            (p.0 as int, p.1 as int) == line_point(
                self.origin().0,
                self.origin().1,
                self.target().0,
                self.target().1,
                self.index(),
            ),
            0 <= self.index() <= self.steps(),
    {
        (self.x, self.y)
    }

    /// Number of steps taken so far.
    pub fn taken(&self) -> (k: u32)
        requires
            self.wf(),
        ensures
            k == self.index(),
            k <= self.steps(),
    {
        self.step
    }

    /// Whether the walk stands on the last pixel of the line.
    pub fn finished(&self) -> (done: bool)
        requires
            self.wf(),
        ensures
            done == (self.index() == self.steps()),
    {
        proof {
            if self.dx >= self.dy {
                lemma_offset_range(self.dx as int, self.dy as int, self.dx as int);
            } else {
                lemma_offset_range(self.dy as int, self.dx as int, self.dy as int);
            }
        }
        self.x == self.x1 && self.y == self.y1
    }

    /// Moves the walk to the next pixel of the line.
    pub fn advance(&mut self)
        requires
            old(self).wf(),
            old(self).index() < old(self).steps(),
        ensures
            final(self).wf(),
            final(self).origin() == old(self).origin(),
            final(self).target() == old(self).target(),
            final(self).index() == old(self).index() + 1,
    {
        proof {
            let k = self.step as int;
            if self.dx >= self.dy {
                lemma_offset_step(self.dx as int, self.dy as int, k);
                lemma_offset_range(self.dx as int, self.dy as int, k);
                lemma_offset_range(self.dx as int, self.dy as int, k + 1);
            } else {
                lemma_offset_step(self.dy as int, self.dx as int, k);
                lemma_offset_range(self.dy as int, self.dx as int, k);
                lemma_offset_range(self.dy as int, self.dx as int, k + 1);
            }
        }
        let e2: i64 = 2 * self.err;
        if e2 > -self.dy {
            self.err = self.err - self.dy;
            self.x = if self.x0 < self.x1 {
                self.x + 1
            } else {
                self.x - 1
            };
        }
        if e2 < self.dx {
            self.err = self.err + self.dx;
            self.y = if self.y0 < self.y1 {
                self.y + 1
            } else {
                self.y - 1
            };
        }
        self.step = self.step + 1;
    }
}

/// Number of steps between the two ends of a line: the larger of the two
/// coordinate distances.
pub fn count_steps(x0: i32, y0: i32, x1: i32, y1: i32) -> (n: u32)
    ensures
        n == line_steps(x0 as int, y0 as int, x1 as int, y1 as int),
{
    let dx: i64 = if x0 < x1 {
        x1 as i64 - x0 as i64
    } else {
        x0 as i64 - x1 as i64
    };
    let dy: i64 = if y0 < y1 {
        y1 as i64 - y0 as i64
    } else {
        y0 as i64 - y1 as i64
    };
    if dx >= dy {
        dx as u32
    } else {
        dy as u32
    }
}

} // verus!
